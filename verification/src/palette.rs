//! The six-colour palette and the nearest-colour quantiser.

use vstd::prelude::*;
use crate::Color;

verus! {

/// The six colours of the panel, in table order.
///
/// The order matters only to break ties: of two colours equally near to an
/// input, the one that stands first wins.
#[derive(Copy, Clone, Debug, PartialEq, Eq, Structural)]
pub enum Spectra6 {
    White,
    Black,
    Yellow,
    Red,
    Green,
    Blue,
}

/// Reference sRGB value of each palette colour, in table order.
pub const PALETTE: [[u8; 3]; 6] = [
    [255, 255, 255],
    [0, 0, 0],
    [255, 255, 0],
    [255, 0, 0],
    [0, 255, 0],
    [0, 0, 255],
];

/// An RGB colour with unbounded integer channels.
pub ghost struct Rgb {
    pub r: int,
    pub g: int,
    pub b: int,
}

/// The colour that an array of three bytes holds.
pub open spec fn rgb_of(a: [u8; 3]) -> Rgb {
    Rgb { r: a[0] as int, g: a[1] as int, b: a[2] as int }
}

impl Spectra6 {
    /// Position of the colour in the table.
    pub open spec fn rank(self) -> int {
        match self {
            Spectra6::White => 0,
            Spectra6::Black => 1,
            Spectra6::Yellow => 2,
            Spectra6::Red => 3,
            Spectra6::Green => 4,
            Spectra6::Blue => 5,
        }
    }

    /// Reference value of the colour.
    pub open spec fn reference(self) -> Rgb {
        match self {
            Spectra6::White => Rgb { r: 255, g: 255, b: 255 },
            Spectra6::Black => Rgb { r: 0, g: 0, b: 0 },
            Spectra6::Yellow => Rgb { r: 255, g: 255, b: 0 },
            Spectra6::Red => Rgb { r: 255, g: 0, b: 0 },
            Spectra6::Green => Rgb { r: 0, g: 255, b: 0 },
            Spectra6::Blue => Rgb { r: 0, g: 0, b: 255 },
        }
    }

    /// The controller colour that shows this palette colour.
    pub open spec fn driver_color(self) -> Color {
        match self {
            Spectra6::White => Color::White,
            Spectra6::Black => Color::Black,
            Spectra6::Yellow => Color::Yellow,
            Spectra6::Red => Color::Red,
            Spectra6::Green => Color::Green,
            Spectra6::Blue => Color::Blue,
        }
    }

    /// Converts the palette colour to the controller's colour. `Orange` is
    /// never produced.
    pub fn to_driver_color(self) -> (c: Color)
        ensures
            c == self.driver_color(),
    {
        match self {
            Spectra6::White => Color::White,
            Spectra6::Black => Color::Black,
            Spectra6::Yellow => Color::Yellow,
            Spectra6::Red => Color::Red,
            Spectra6::Green => Color::Green,
            Spectra6::Blue => Color::Blue,
        }
    }
}

/// Weighted squared distance between two colours: three times the squared
/// difference in red, six times that in green, once that in blue.
pub open spec fn weighted_dist2(a: Rgb, b: Rgb) -> int {
    3 * ((a.r - b.r) * (a.r - b.r)) + 6 * ((a.g - b.g) * (a.g - b.g)) + (a.b - b.b) * (a.b - b.b)
}

proof fn lemma_square_bound(d: int)
    by (nonlinear_arith)
    requires
        -255 <= d <= 255,
    ensures
        0 <= d * d <= 65025,
{
}

/// Computes the weighted squared distance between two byte colours.
pub fn dist2_weighted(a: [u8; 3], b: [u8; 3]) -> (d: u32)
    ensures
        d as int == weighted_dist2(rgb_of(a), rgb_of(b)),
        d <= 650250,
{
    let dr: i32 = a[0] as i32 - b[0] as i32;
    let dg: i32 = a[1] as i32 - b[1] as i32;
    let db: i32 = a[2] as i32 - b[2] as i32;
    proof {
        lemma_square_bound(dr as int);
        lemma_square_bound(dg as int);
        lemma_square_bound(db as int);
    }
    (3 * (dr * dr) + 6 * (dg * dg) + db * db) as u32
}

/// Whether `c` wins against `d` for the input `rgb`: `c` is at least as near
/// as `d`, and strictly nearer if `d` stands before it in the table.
pub open spec fn beats(rgb: Rgb, c: Spectra6, d: Spectra6) -> bool {
    let dc = weighted_dist2(rgb, c.reference());
    let dd = weighted_dist2(rgb, d.reference());
    dc <= dd && (d.rank() < c.rank() ==> dc < dd)
}

/// Whether `c` is the palette colour nearest to `rgb`: no colour is nearer,
/// and every colour that stands before `c` in the table is farther.
pub open spec fn is_nearest(rgb: Rgb, c: Spectra6) -> bool {
    forall|d: Spectra6| #[trigger] beats(rgb, c, d)
}

/// The palette colour nearest to `rgb`.
pub open spec fn nearest(rgb: Rgb) -> Spectra6 {
    choose|c: Spectra6| is_nearest(rgb, c)
}

/// The colour at a position of the table.
pub open spec fn entry(i: int) -> Spectra6 {
    if i == 0 {
        Spectra6::White
    } else if i == 1 {
        Spectra6::Black
    } else if i == 2 {
        Spectra6::Yellow
    } else if i == 3 {
        Spectra6::Red
    } else if i == 4 {
        Spectra6::Green
    } else {
        Spectra6::Blue
    }
}

/// The table holds the reference value of each colour at the position of
/// the colour, and no value twice.
pub proof fn lemma_table_holds_references(c: Spectra6, d: Spectra6)
    ensures
        0 <= c.rank() < 6,
        entry(c.rank()) == c,
        rgb_of(PALETTE[c.rank()]) == c.reference(),
        c != d ==> c.reference() != d.reference() && c.rank() != d.rank(),
{
}

/// At most one colour is the nearest: the nearest colour is a function of
/// the input.
pub proof fn lemma_nearest_unique(rgb: Rgb, c: Spectra6)
    requires
        is_nearest(rgb, c),
    ensures
        nearest(rgb) == c,
{
    let n = nearest(rgb);
    assert(beats(rgb, n, c));
    assert(beats(rgb, c, n));
    assert(n.rank() == c.rank());
}

/// Maps an RGB colour to the nearest palette colour, without dithering.
pub fn map_rgb_to_spectra6_nearest(rgb: [u8; 3]) -> (c: Spectra6)
    ensures
        is_nearest(rgb_of(rgb), c),
        c == nearest(rgb_of(rgb)),
{
    let mut best: usize = 0;
    let mut best_d: u32 = u32::MAX;
    let mut i: usize = 0;
    while i < 6
        invariant
            i <= 6,
            best < 6,
            i == 0 ==> best_d == u32::MAX,
            i > 0 ==> best < i && best_d as int == weighted_dist2(
                rgb_of(rgb),
                entry(best as int).reference(),
            ),
            forall|j: int|
                0 <= j < i ==> best_d as int <= #[trigger] weighted_dist2(
                    rgb_of(rgb),
                    entry(j).reference(),
                ),
            forall|j: int|
                0 <= j < best ==> (best_d as int) < #[trigger] weighted_dist2(
                    rgb_of(rgb),
                    entry(j).reference(),
                ),
        decreases 6 - i,
    {
        let p = PALETTE[i];
        assert(rgb_of(p) == entry(i as int).reference());
        let d = dist2_weighted(rgb, p);
        if d < best_d {
            best_d = d;
            best = i;
        }
        i += 1;
    }
    let c = match best {
        0 => Spectra6::White,
        1 => Spectra6::Black,
        2 => Spectra6::Yellow,
        3 => Spectra6::Red,
        4 => Spectra6::Green,
        _ => Spectra6::Blue,
    };
    proof {
        assert(c == entry(best as int));
        assert forall|d: Spectra6| #[trigger] beats(rgb_of(rgb), c, d) by {
            assert(d == entry(d.rank()));
        }
        lemma_nearest_unique(rgb_of(rgb), c);
    }
    c
}

proof fn lemma_extreme_square(x: int, y: int)
    by (nonlinear_arith)
    requires
        x == 0 || x == 255,
        y == 0 || y == 255,
    ensures
        (x - y) * (x - y) == (if x == y {
            0int
        } else {
            65025int
        }),
{
}

/// Every reference colour is its own nearest palette colour.
pub proof fn lemma_reference_is_fixed(c: Spectra6)
    ensures
        is_nearest(c.reference(), c),
        nearest(c.reference()) == c,
{
    assert forall|d: Spectra6| #[trigger] beats(c.reference(), c, d) by {
        let p = c.reference();
        let q = d.reference();
        lemma_extreme_square(p.r, q.r);
        lemma_extreme_square(p.g, q.g);
        lemma_extreme_square(p.b, q.b);
    }
    lemma_nearest_unique(c.reference(), c);
}

/// The nearer of two colours, the first on a tie.
spec fn first_of(rgb: Rgb, best: Spectra6, next: Spectra6) -> Spectra6 {
    if weighted_dist2(rgb, next.reference()) < weighted_dist2(rgb, best.reference()) {
        next
    } else {
        best
    }
}

/// Some colour is nearest to every input, byte-sized or not.
pub proof fn lemma_nearest_exists(rgb: Rgb)
    ensures
        is_nearest(rgb, nearest(rgb)),
{
    let c0 = Spectra6::White;
    let c1 = first_of(rgb, c0, Spectra6::Black);
    let c2 = first_of(rgb, c1, Spectra6::Yellow);
    let c3 = first_of(rgb, c2, Spectra6::Red);
    let c4 = first_of(rgb, c3, Spectra6::Green);
    let c5 = first_of(rgb, c4, Spectra6::Blue);
    assert forall|d: Spectra6| #[trigger] beats(rgb, c5, d) by {
        assert(d == entry(d.rank()));
    }
    assert(is_nearest(rgb, c5));
}

/// The nearest colour is a first minimum of the distance over the table.
pub proof fn lemma_nearest_is_first_minimum(rgb: Rgb, d: Spectra6)
    ensures
        weighted_dist2(rgb, nearest(rgb).reference()) <= weighted_dist2(rgb, d.reference()),
        d.rank() < nearest(rgb).rank() ==> weighted_dist2(rgb, nearest(rgb).reference())
            < weighted_dist2(rgb, d.reference()),
{
    lemma_nearest_exists(rgb);
    assert(beats(rgb, nearest(rgb), d));
}

/// A channel value brought into the range of a byte.
pub open spec fn clamp_channel(v: int) -> int {
    if v < 0 {
        0
    } else if v > 255 {
        255
    } else {
        v
    }
}

impl Rgb {
    /// The colour with `dr`, `dg` and `db` added to its channels, each sum
    /// brought into the range of a byte.
    pub open spec fn offset(self, dr: int, dg: int, db: int) -> Rgb {
        Rgb {
            r: clamp_channel(self.r + dr),
            g: clamp_channel(self.g + dg),
            b: clamp_channel(self.b + db),
        }
    }
}

/// Clamps `v` to `0..=255`.
pub fn clamp_u8(v: i32) -> (c: u8)
    ensures
        c as int == clamp_channel(v as int),
{
    if v < 0 {
        0
    } else if v > 255 {
        255
    } else {
        v as u8
    }
}

/// Adds a signed bias to each channel of `rgb`, saturating at 0 and 255.
pub fn add_bias(rgb: [u8; 3], bias: [i16; 3]) -> (out: [u8; 3])
    ensures
        rgb_of(out) == rgb_of(rgb).offset(bias[0] as int, bias[1] as int, bias[2] as int),
{
    [
        clamp_u8(rgb[0] as i32 + bias[0] as i32),
        clamp_u8(rgb[1] as i32 + bias[1] as i32),
        clamp_u8(rgb[2] as i32 + bias[2] as i32),
    ]
}

} // verus!

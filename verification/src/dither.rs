//! Dithering strategies that map RGB pixels to the six-colour palette.
//!
//! A strategy maps one pixel at a time. [`Bayer4x4`] and [`Halftone`] look
//! only at the pixel and its coordinates; [`FloydSteinberg`] carries the
//! quantisation error of a pixel over to its neighbours and so wants the
//! pixels of a frame row by row from the top, each row from the left.

use vstd::prelude::*;
use crate::palette::{
    add_bias, beats, clamp_u8, lemma_nearest_unique, lemma_reference_is_fixed,
    map_rgb_to_spectra6_nearest, nearest, rgb_of, Rgb, Spectra6,
};

verus! {

/// A way to map the pixels of a frame to palette colours, one at a time.
///
/// The view of a strategy is the state that its results depend on.
/// `color_at` and `advance` say, for a state and a pixel, which colour
/// [`map`](DitherStrategy::map) returns and in which state it leaves the
/// strategy.
pub trait DitherStrategy: View {
    /// Whether the value is consistent.
    spec fn wf(&self) -> bool;

    /// Whether a strategy in state `s` can map a pixel at `(x, y)`.
    spec fn accepts(s: Self::V, x: int, y: int) -> bool;

    /// The colour that a strategy in state `s` gives to `rgb` at `(x, y)`.
    spec fn color_at(s: Self::V, x: int, y: int, rgb: Rgb) -> Spectra6;

    /// The state that follows `s` once `rgb` at `(x, y)` has been mapped.
    spec fn advance(s: Self::V, x: int, y: int, rgb: Rgb) -> Self::V;

    /// Tells whether [`map`](DitherStrategy::map) can be called at `(x, y)`.
    fn can_map(&self, x: u32, y: u32) -> (ok: bool)
        requires
            self.wf(),
        ensures
            ok == Self::accepts(self@, x as int, y as int),
    ;

    /// Maps the colour `rgb` of the pixel at `(x, y)` to a palette colour.
    fn map(&mut self, x: u32, y: u32, rgb: [u8; 3]) -> (c: Spectra6)
        requires
            old(self).wf(),
            Self::accepts(old(self)@, x as int, y as int),
        ensures
            final(self).wf(),
            c == Self::color_at(old(self)@, x as int, y as int, rgb_of(rgb)),
            final(self)@ == Self::advance(old(self)@, x as int, y as int, rgb_of(rgb)),
    ;
}

/// Threshold of the 4x4 Bayer matrix at column `x` and row `y`, from 0 to 15.
pub open spec fn bayer_threshold(x: int, y: int) -> int {
    let col = x % 4;
    let row = y % 4;
    if row == 0 {
        if col == 0 { 0 } else if col == 1 { 8 } else if col == 2 { 2 } else { 10 }
    } else if row == 1 {
        if col == 0 { 12 } else if col == 1 { 4 } else if col == 2 { 14 } else { 6 }
    } else if row == 2 {
        if col == 0 { 3 } else if col == 1 { 11 } else if col == 2 { 1 } else { 9 }
    } else {
        if col == 0 { 15 } else if col == 1 { 7 } else if col == 2 { 13 } else { 5 }
    }
}

/// The colour that ordered dithering gives to `rgb` at `(x, y)`: the colour
/// nearest to `rgb` with the bias of the pixel, from -8 to 7, added to each
/// channel.
pub open spec fn bayer_color(x: int, y: int, rgb: Rgb) -> Spectra6 {
    let bias = bayer_threshold(x, y) - 8;
    nearest(rgb.offset(bias, bias, bias))
}

const BAYER: [[i16; 4]; 4] = [[0, 8, 2, 10], [12, 4, 14, 6], [3, 11, 1, 9], [15, 7, 13, 5]];

/// Ordered dithering with the 4x4 Bayer matrix. It keeps no state.
pub struct Bayer4x4;

impl View for Bayer4x4 {
    type V = ();

    open spec fn view(&self) -> () {
        ()
    }
}

impl DitherStrategy for Bayer4x4 {
    open spec fn wf(&self) -> bool {
        true
    }

    open spec fn accepts(s: (), x: int, y: int) -> bool {
        true
    }

    open spec fn color_at(s: (), x: int, y: int, rgb: Rgb) -> Spectra6 {
        bayer_color(x, y, rgb)
    }

    open spec fn advance(s: (), x: int, y: int, rgb: Rgb) -> () {
        ()
    }

    fn can_map(&self, x: u32, y: u32) -> (ok: bool) {
        true
    }

    fn map(&mut self, x: u32, y: u32, rgb: [u8; 3]) -> (c: Spectra6) {
        assert(x & 3 == x % 4) by (bit_vector);
        assert(y & 3 == y % 4) by (bit_vector);
        let t: i16 = BAYER[(y & 3) as usize][(x & 3) as usize];
        let bias: i16 = t - 8;
        let b = [bias, bias, bias];
        let nudged = add_bias(rgb, b);
        map_rgb_to_spectra6_nearest(nudged)
    }
}

/// Two calls of `Bayer4x4::map` on the same pixel give the same colour: the
/// colour depends on the coordinates and the input alone, and on them only
/// through the column and the row modulo 4.
pub proof fn lemma_bayer_is_deterministic(x: int, y: int, rgb: Rgb)
    ensures
        Bayer4x4::color_at(Bayer4x4::advance((), x, y, rgb), x, y, rgb) == Bayer4x4::color_at(
            (),
            x,
            y,
            rgb,
        ),
        bayer_color(x + 4, y, rgb) == bayer_color(x, y, rgb),
        bayer_color(x, y + 4, rgb) == bayer_color(x, y, rgb),
        -8 <= bayer_threshold(x, y) - 8 <= 7,
{
}

/// Squared distances of a channel value `v` that lies within 8 of the
/// extreme `p`: small to `p`, large to the other extreme.
proof fn lemma_near_an_extreme(v: int, p: int, q: int)
    by (nonlinear_arith)
    requires
        p == 0 || p == 255,
        q == 0 || q == 255,
        -8 <= v - p <= 8,
    ensures
        (v - p) * (v - p) <= 64,
        p != q ==> (v - q) * (v - q) >= 61009,
        p == q ==> (v - q) * (v - q) == (v - p) * (v - p),
{
}

/// Ordered dithering keeps the palette: an input that is the reference value
/// of a colour gets that colour at every pixel. A white area stays white.
pub proof fn lemma_bayer_keeps_reference_colours(x: int, y: int, c: Spectra6)
    ensures
        bayer_color(x, y, c.reference()) == c,
{
    let bias = bayer_threshold(x, y) - 8;
    let p = c.reference();
    let a = p.offset(bias, bias, bias);
    assert forall|d: Spectra6| #[trigger] beats(a, c, d) by {
        let q = d.reference();
        lemma_near_an_extreme(a.r, p.r, q.r);
        lemma_near_an_extreme(a.g, p.g, q.g);
        lemma_near_an_extreme(a.b, p.b, q.b);
    }
    lemma_nearest_unique(a, c);
}

/// Luminance of a colour on the scale of a byte: the channels weighted 3, 6
/// and 1, over 10.
pub open spec fn luminance(rgb: Rgb) -> int {
    (3 * rgb.r + 6 * rgb.g + rgb.b) / 10
}

/// The level, from 0 to 4, of a luminance: the levels change at 32, 96, 160
/// and 224.
pub open spec fn level_of(lum: int) -> int {
    if lum < 32 {
        0
    } else if lum < 96 {
        1
    } else if lum < 160 {
        2
    } else if lum < 224 {
        3
    } else {
        4
    }
}

/// Rank of the cell at column `xi` and row `yi` of a tile: the cell is white
/// at every level above its rank. A tile of size 2 has the ranks 0 to 3; any
/// other tile has those of the 3x3 pattern, and rank 4 outside of it.
pub open spec fn tile_rank(tile: int, xi: int, yi: int) -> int {
    if tile == 2 {
        if xi == 0 && yi == 0 {
            0
        } else if xi == 1 && yi == 1 {
            1
        } else if xi == 1 && yi == 0 {
            2
        } else {
            3
        }
    } else {
        if xi == 1 && yi == 1 {
            0
        } else if (xi == 2 && yi == 0) || (xi == 0 && yi == 2) {
            1
        } else if (xi == 0 && yi == 1) || (xi == 1 && yi == 0) || (xi == 1 && yi == 2) || (xi == 2
            && yi == 1) {
            2
        } else if (xi == 0 && yi == 0) || (xi == 2 && yi == 2) {
            3
        } else {
            4
        }
    }
}

/// The colour that a halftone of tile size `tile` gives to `rgb` at `(x, y)`:
/// white where the level of `rgb` is above the rank of the pixel's cell,
/// black elsewhere.
pub open spec fn halftone_color(tile: int, x: int, y: int, rgb: Rgb) -> Spectra6 {
    if level_of(luminance(rgb)) > tile_rank(tile, x % tile, y % tile) {
        Spectra6::White
    } else {
        Spectra6::Black
    }
}

/// Black-and-white halftone over tiles of 2x2 or 3x3 pixels.
pub struct Halftone {
    /// Side of a tile in pixels: 2 or 3.
    pub tile: u8,
}

impl View for Halftone {
    type V = int;

    open spec fn view(&self) -> int {
        self.tile as int
    }
}

impl Halftone {
    /// Creates a halftone with tiles of side `tile`, brought into `2..=3`.
    pub fn new(tile: u8) -> (h: Halftone)
        ensures
            h.wf(),
            h.tile == (if tile < 2 {
                2
            } else if tile > 3 {
                3
            } else {
                tile
            }),
    {
        Halftone {
            tile: if tile < 2 {
                2
            } else if tile > 3 {
                3
            } else {
                tile
            },
        }
    }

    /// Computes the level, from 0 to 4, of a colour's luminance.
    pub fn level_from_rgb(rgb: [u8; 3]) -> (level: u8)
        ensures
            level as int == level_of(luminance(rgb_of(rgb))),
    {
        let y: u16 = (3 * (rgb[0] as u16) + 6 * (rgb[1] as u16) + (rgb[2] as u16)) / 10;
        if y < 32 {
            0
        } else if y < 96 {
            1
        } else if y < 160 {
            2
        } else if y < 224 {
            3
        } else {
            4
        }
    }
}

impl DitherStrategy for Halftone {
    /// The tile has a side: a tile of size 0 has no cells.
    open spec fn wf(&self) -> bool {
        self.tile >= 1
    }

    open spec fn accepts(s: int, x: int, y: int) -> bool {
        true
    }

    open spec fn color_at(s: int, x: int, y: int, rgb: Rgb) -> Spectra6 {
        halftone_color(s, x, y, rgb)
    }

    open spec fn advance(s: int, x: int, y: int, rgb: Rgb) -> int {
        s
    }

    fn can_map(&self, x: u32, y: u32) -> (ok: bool) {
        true
    }

    fn map(&mut self, x: u32, y: u32, rgb: [u8; 3]) -> (c: Spectra6) {
        let lvl: u8 = Self::level_from_rgb(rgb);
        let n: u32 = self.tile as u32;
        let xi: u8 = (x % n) as u8;
        let yi: u8 = (y % n) as u8;
        let on = if self.tile == 2 {
            let rank: u8 = match (xi, yi) {
                (0, 0) => 0,
                (1, 1) => 1,
                (1, 0) => 2,
                _ => 3,
            };
            lvl > rank
        } else {
            let rank: u8 = match (xi, yi) {
                (1, 1) => 0,
                (2, 0) | (0, 2) => 1,
                (0, 1) | (1, 0) | (1, 2) | (2, 1) => 2,
                (0, 0) | (2, 2) => 3,
                _ => 4,
            };
            lvl > rank
        };
        if on {
            Spectra6::White
        } else {
            Spectra6::Black
        }
    }
}

/// What `i16::saturating_add` returns: the sum, or the bound of `i16` that
/// the sum lies beyond.
pub assume_specification[ i16::saturating_add ](a: i16, b: i16) -> (r: i16)
    ensures
        r == saturate(a + b),
;

/// `v` brought into the range of `i16`.
pub open spec fn saturate(v: int) -> i16 {
    if v > i16::MAX {
        i16::MAX
    } else if v < i16::MIN {
        i16::MIN
    } else {
        v as i16
    }
}

/// The share of `weight` sixteenths of the error `e`, rounded toward zero.
pub open spec fn share(e: int, weight: int) -> int {
    if e >= 0 {
        (e * weight) / 16
    } else {
        -((-e * weight) / 16)
    }
}

/// The share of the error `e` of a pixel that goes to the pixel `d` columns
/// to its right in the same row: seven sixteenths to the next one.
pub open spec fn share_beside(e: int, d: int) -> int {
    if d == 1 {
        share(e, 7)
    } else {
        0
    }
}

/// The share of the error `e` of a pixel that goes to the pixel `d` columns
/// to its right in the row below: three sixteenths to the left, five straight
/// down, one to the right.
pub open spec fn share_below(e: int, d: int) -> int {
    if d == -1 {
        share(e, 3)
    } else if d == 0 {
        share(e, 5)
    } else if d == 1 {
        share(e, 1)
    } else {
        0
    }
}

impl Rgb {
    /// The channel at position `k` of an interleaved row: red, green, blue.
    pub open spec fn channel(self, k: int) -> int {
        if k == 0 {
            self.r
        } else if k == 1 {
            self.g
        } else {
            self.b
        }
    }

    /// The difference of two colours, channel by channel.
    pub open spec fn minus(self, other: Rgb) -> Rgb {
        Rgb { r: self.r - other.r, g: self.g - other.g, b: self.b - other.b }
    }
}

/// The state of error diffusion: two rows of accumulated error, three
/// channels to a column, and the coordinates of the last pixel.
#[verifier::ext_equal]
pub ghost struct FsState {
    /// Width of the canvas in pixels.
    pub width: int,
    /// Error that the pixels of the current row are still to take up.
    pub cur: Seq<i16>,
    /// Error gathered for the row below.
    pub nxt: Seq<i16>,
    /// Column of the last pixel, 0 at the start of a row.
    pub x: int,
    /// The current row.
    pub y: int,
}

impl FsState {
    /// Both rows hold three values for each column.
    pub open spec fn wf(self) -> bool {
        &&& self.cur.len() == 3 * self.width
        &&& self.nxt.len() == 3 * self.width
    }

    /// Whether a pixel at `(x, y)` begins a new row: it lies in another row
    /// than the last pixel, or in column 0 after the column had advanced.
    pub open spec fn starts_row(self, x: int, y: int) -> bool {
        y != self.y || (x == 0 && self.x != 0)
    }

    /// The state at the start of row `y`: the row below has become the
    /// current row, and the new row below holds no error.
    pub open spec fn rolled(self, y: int) -> FsState {
        FsState {
            width: self.width,
            cur: self.nxt,
            nxt: Seq::new(self.nxt.len(), |i: int| 0i16),
            x: 0,
            y,
        }
    }

    /// The state in which a pixel at `(x, y)` is mapped.
    pub open spec fn entered(self, x: int, y: int) -> FsState {
        if self.starts_row(x, y) {
            self.rolled(y)
        } else {
            self
        }
    }

    /// The input `rgb` with the error accumulated for column `x` added,
    /// each channel clamped to `0..=255`.
    pub open spec fn adjusted(self, x: int, rgb: Rgb) -> Rgb {
        rgb.offset(
            self.cur[3 * x] as int,
            self.cur[3 * x + 1] as int,
            self.cur[3 * x + 2] as int,
        )
    }

    /// The state after the error `e` of the pixel in column `x` has been
    /// handed to the neighbours that lie inside the canvas. Every sum
    /// saturates at the bounds of `i16`.
    pub open spec fn diffused(self, x: int, e: Rgb) -> FsState {
        FsState {
            width: self.width,
            cur: Seq::new(
                self.cur.len(),
                |i: int| saturate(self.cur[i] + share_beside(e.channel(i % 3), i / 3 - x)),
            ),
            nxt: Seq::new(
                self.nxt.len(),
                |i: int| saturate(self.nxt[i] + share_below(e.channel(i % 3), i / 3 - x)),
            ),
            x,
            y: self.y,
        }
    }

    /// The colour that error diffusion gives to `rgb` at `(x, y)`: the
    /// palette colour nearest to the adjusted input.
    pub open spec fn color(self, x: int, y: int, rgb: Rgb) -> Spectra6 {
        nearest(self.entered(x, y).adjusted(x, rgb))
    }

    /// The state after `rgb` at `(x, y)` has been mapped: the difference
    /// between the adjusted input and the reference value of its colour is
    /// diffused.
    pub open spec fn step(self, x: int, y: int, rgb: Rgb) -> FsState {
        let t = self.entered(x, y);
        let adj = t.adjusted(x, rgb);
        t.diffused(x, adj.minus(nearest(adj).reference()))
    }
}

/// Floyd-Steinberg error diffusion over two rows of accumulated error.
///
/// The pixels of a frame are to be mapped row by row from the top, and each
/// row from the left. In any other order the result is still the one that
/// [`FsState::step`] describes, but the error no longer reaches the
/// neighbours it was meant for.
pub struct FloydSteinberg {
    width: u32,
    cur: Vec<i16>,
    nxt: Vec<i16>,
    x: u32,
    y: u32,
}

impl View for FloydSteinberg {
    type V = FsState;

    closed spec fn view(&self) -> FsState {
        FsState {
            width: self.width as int,
            cur: self.cur@,
            nxt: self.nxt@,
            x: self.x as int,
            y: self.y as int,
        }
    }
}

impl FloydSteinberg {
    /// Creates the strategy for a canvas `width` pixels wide, with no error
    /// accumulated and the first pixel expected at the origin.
    pub fn new(width: u32) -> (fs: FloydSteinberg)
        requires
            3 * width <= usize::MAX,
        ensures
            fs.wf(),
            fs@ == (FsState {
                width: width as int,
                cur: Seq::new(3 * width as nat, |i: int| 0i16),
                nxt: Seq::new(3 * width as nat, |i: int| 0i16),
                x: 0,
                y: 0,
            }),
    {
        let len: usize = (width as usize) * 3;
        let fs = FloydSteinberg { width, cur: vec![0; len], nxt: vec![0; len], x: 0, y: 0 };
        assert(fs@.cur =~= Seq::new(3 * width as nat, |i: int| 0i16));
        assert(fs@.nxt =~= Seq::new(3 * width as nat, |i: int| 0i16));
        fs
    }

    /// Makes the row below the current row, and clears the new row below.
    fn roll(&mut self, y: u32)
        requires
            old(self).wf(),
        ensures
            final(self).wf(),
            final(self)@ == old(self)@.rolled(y as int),
    {
        core::mem::swap(&mut self.cur, &mut self.nxt);
        let n: usize = self.nxt.len();
        let mut i: usize = 0;
        while i < n
            invariant
                i <= n,
                n == self.nxt.len(),
                self.cur == old(self).nxt,
                self.width == old(self).width,
                forall|j: int| 0 <= j < i ==> self.nxt@[j] == 0i16,
            decreases n - i,
        {
            self.nxt[i] = 0;
            i += 1;
        }
        self.y = y;
        self.x = 0;
        assert(self@.nxt =~= old(self)@.rolled(y as int).nxt);
    }

    /// Hands the error of the pixel in column `x` to its neighbours: seven
    /// sixteenths to the right, three below to the left, five straight
    /// below and one below to the right. A neighbour outside the canvas
    /// gets nothing.
    fn diffuse(&mut self, x: u32, er: i16, eg: i16, eb: i16)
        requires
            old(self).wf(),
            x < old(self)@.width,
            -255 <= er <= 255,
            -255 <= eg <= 255,
            -255 <= eb <= 255,
        ensures
            final(self).wf(),
            final(self)@ == old(self)@.diffused(
                x as int,
                Rgb { r: er as int, g: eg as int, b: eb as int },
            ),
    {
        assert(self.cur@.len() == self.cur.len());
        let idx: usize = (x as usize) * 3;
        // Right neighbour
        if x + 1 < self.width {
            let (sr, sg, sb) = (sixteenths(er, 7), sixteenths(eg, 7), sixteenths(eb, 7));
            add_to_column(&mut self.cur, idx + 3, sr, sg, sb);
        }
        // Below, to the left
        if x > 0 {
            let (sr, sg, sb) = (sixteenths(er, 3), sixteenths(eg, 3), sixteenths(eb, 3));
            add_to_column(&mut self.nxt, idx - 3, sr, sg, sb);
        }
        // Straight below
        let (sr, sg, sb) = (sixteenths(er, 5), sixteenths(eg, 5), sixteenths(eb, 5));
        add_to_column(&mut self.nxt, idx, sr, sg, sb);
        // Below, to the right
        if x + 1 < self.width {
            let (sr, sg, sb) = (sixteenths(er, 1), sixteenths(eg, 1), sixteenths(eb, 1));
            add_to_column(&mut self.nxt, idx + 3, sr, sg, sb);
        }
        self.x = x;
        proof {
            lemma_diffusion_by_columns(
                old(self)@,
                x as int,
                Rgb { r: er as int, g: eg as int, b: eb as int },
            );
        }
    }

    /// Tells the strategy that row `y` begins. If `y` is not the current
    /// row, the row below becomes the current row and the new row below is
    /// cleared; if it is, nothing changes.
    pub fn start_line(&mut self, y: u32)
        requires
            old(self).wf(),
        ensures
            final(self).wf(),
            final(self)@ == (if y as int != old(self)@.y {
                old(self)@.rolled(y as int)
            } else {
                old(self)@
            }),
    {
        if y != self.y {
            self.roll(y);
        }
    }
}

impl DitherStrategy for FloydSteinberg {
    open spec fn wf(&self) -> bool {
        self@.wf()
    }

    /// The column lies on the canvas.
    open spec fn accepts(s: FsState, x: int, y: int) -> bool {
        0 <= x < s.width
    }

    open spec fn color_at(s: FsState, x: int, y: int, rgb: Rgb) -> Spectra6 {
        s.color(x, y, rgb)
    }

    open spec fn advance(s: FsState, x: int, y: int, rgb: Rgb) -> FsState {
        s.step(x, y, rgb)
    }

    fn can_map(&self, x: u32, y: u32) -> (ok: bool) {
        x < self.width
    }

    fn map(&mut self, x: u32, y: u32, rgb: [u8; 3]) -> (c: Spectra6) {
        if y != self.y || (x == 0 && self.x != 0) {
            self.roll(y);
        }
        let ghost t = old(self)@.entered(x as int, y as int);
        assert(self@ == t);
        assert(self.cur@.len() == self.cur.len());
        let idx: usize = (x as usize) * 3;
        let adj = [
            clamp_u8(rgb[0] as i32 + self.cur[idx] as i32),
            clamp_u8(rgb[1] as i32 + self.cur[idx + 1] as i32),
            clamp_u8(rgb[2] as i32 + self.cur[idx + 2] as i32),
        ];
        assert(rgb_of(adj) == t.adjusted(x as int, rgb_of(rgb)));
        let q = map_rgb_to_spectra6_nearest(adj);
        let qc: [u8; 3] = match q {
            Spectra6::White => [255, 255, 255],
            Spectra6::Black => [0, 0, 0],
            Spectra6::Yellow => [255, 255, 0],
            Spectra6::Red => [255, 0, 0],
            Spectra6::Green => [0, 255, 0],
            Spectra6::Blue => [0, 0, 255],
        };
        assert(rgb_of(qc) == q.reference());
        let er: i16 = adj[0] as i16 - qc[0] as i16;
        let eg: i16 = adj[1] as i16 - qc[1] as i16;
        let eb: i16 = adj[2] as i16 - qc[2] as i16;
        assert(Rgb { r: er as int, g: eg as int, b: eb as int } == rgb_of(adj).minus(
            q.reference(),
        ));
        self.diffuse(x, er, eg, eb);
        q
    }
}

/// Computes `weight` sixteenths of the error `e`, rounded toward zero.
fn sixteenths(e: i16, weight: i16) -> (s: i16)
    requires
        -255 <= e <= 255,
        1 <= weight <= 7,
    ensures
        s == share(e as int, weight as int),
{
    assert(-1785 <= e * weight <= 1785 && (e >= 0 ==> e * weight >= 0) && (e < 0 ==> e * weight
        < 0) && -e * weight == -(e * weight)) by (nonlinear_arith)
        requires
            -255 <= e <= 255,
            1 <= weight <= 7,
    ;
    (e * weight) / 16
}

/// The row with `sr`, `sg` and `sb` added to the three channels of the
/// column that begins at index `j`, each sum saturating.
spec fn column_added(row: Seq<i16>, j: int, sr: int, sg: int, sb: int) -> Seq<i16> {
    row.update(j, saturate(row[j] + sr)).update(j + 1, saturate(row[j + 1] + sg)).update(
        j + 2,
        saturate(row[j + 2] + sb),
    )
}

/// Adds a share of the error to each channel of the column that begins at
/// index `j` of `row`.
fn add_to_column(row: &mut Vec<i16>, j: usize, sr: i16, sg: i16, sb: i16)
    requires
        j + 2 < old(row).len(),
    ensures
        final(row)@ == column_added(old(row)@, j as int, sr as int, sg as int, sb as int),
{
    row[j] = row[j].saturating_add(sr);
    row[j + 1] = row[j + 1].saturating_add(sg);
    row[j + 2] = row[j + 2].saturating_add(sb);
}

/// Diffusion, which is stated entry by entry, is what adding the shares
/// column by column gives: to the right neighbour, then below to the left,
/// straight below and to the right, each where the column exists.
proof fn lemma_diffusion_by_columns(t: FsState, x: int, e: Rgb)
    requires
        t.wf(),
        0 <= x < t.width,
    ensures
        t.diffused(x, e).cur == (if x + 1 < t.width {
            column_added(t.cur, 3 * x + 3, share(e.r, 7), share(e.g, 7), share(e.b, 7))
        } else {
            t.cur
        }),
        t.diffused(x, e).nxt == ({
            let left = if x > 0 {
                column_added(t.nxt, 3 * x - 3, share(e.r, 3), share(e.g, 3), share(e.b, 3))
            } else {
                t.nxt
            };
            let down = column_added(left, 3 * x, share(e.r, 5), share(e.g, 5), share(e.b, 5));
            if x + 1 < t.width {
                column_added(down, 3 * x + 3, share(e.r, 1), share(e.g, 1), share(e.b, 1))
            } else {
                down
            }
        }),
{
    let d = t.diffused(x, e);
    let cur2 = if x + 1 < t.width {
        column_added(t.cur, 3 * x + 3, share(e.r, 7), share(e.g, 7), share(e.b, 7))
    } else {
        t.cur
    };
    assert(d.cur =~= cur2);
    let left = if x > 0 {
        column_added(t.nxt, 3 * x - 3, share(e.r, 3), share(e.g, 3), share(e.b, 3))
    } else {
        t.nxt
    };
    let down = column_added(left, 3 * x, share(e.r, 5), share(e.g, 5), share(e.b, 5));
    let right = if x + 1 < t.width {
        column_added(down, 3 * x + 3, share(e.r, 1), share(e.g, 1), share(e.b, 1))
    } else {
        down
    };
    assert(d.nxt =~= right);
}

/// The four shares of an error are the whole of it before rounding, and
/// after rounding toward zero they fall short of it by less than four
/// units, never beyond it.
pub proof fn lemma_shares_conserve_error(e: int)
    ensures
        7 * e + 3 * e + 5 * e + 1 * e == 16 * e,
        e >= 0 ==> e - 3 <= share(e, 7) + share(e, 3) + share(e, 5) + share(e, 1) <= e,
        e <= 0 ==> e <= share(e, 7) + share(e, 3) + share(e, 5) + share(e, 1) <= e + 3,
{
}

/// Diffusion stays on the canvas: the rows keep their length, the current
/// row changes in column `x + 1` only and the row below in the columns
/// `x - 1` to `x + 1` only. So the last column leaves the current row as it
/// was, and nothing is written left of column 0 or right of the last one.
pub proof fn lemma_diffusion_stays_on_canvas(t: FsState, x: int, e: Rgb)
    requires
        t.wf(),
        0 <= x < t.width,
    ensures
        t.diffused(x, e).wf(),
        t.diffused(x, e).width == t.width,
        forall|i: int|
            0 <= i < 3 * t.width && i / 3 != x + 1 ==> #[trigger] t.diffused(x, e).cur[i]
                == t.cur[i],
        forall|i: int|
            0 <= i < 3 * t.width && !(x - 1 <= i / 3 <= x + 1) ==> #[trigger] t.diffused(
                x,
                e,
            ).nxt[i] == t.nxt[i],
        x == t.width - 1 ==> t.diffused(x, e).cur == t.cur,
{
    if x == t.width - 1 {
        assert(t.diffused(x, e).cur =~= t.cur);
    }
}

/// Error diffusion keeps the palette: where no error has accumulated, an
/// input that is the reference value of a colour gets that colour and leaves
/// no error behind. So a frame of palette colours comes out as it went in.
pub proof fn lemma_step_keeps_reference_colours(s: FsState, x: int, y: int, c: Spectra6)
    requires
        s.wf(),
        0 <= x < s.width,
        forall|i: int| 0 <= i < 3 * s.width ==> s.cur[i] == 0 && s.nxt[i] == 0,
    ensures
        s.color(x, y, c.reference()) == c,
        s.step(x, y, c.reference()).wf(),
        forall|i: int|
            0 <= i < 3 * s.width ==> (#[trigger] s.step(x, y, c.reference()).cur[i]) == 0 && s.step(
                x,
                y,
                c.reference(),
            ).nxt[i] == 0,
{
    let t = s.entered(x, y);
    assert forall|i: int| 0 <= i < 3 * s.width implies t.cur[i] == 0 && t.nxt[i] == 0 by {
        assert(s.nxt[i] == 0);
    }
    let adj = t.adjusted(x, c.reference());
    assert(adj == c.reference());
    lemma_reference_is_fixed(c);
    let e = adj.minus(nearest(adj).reference());
    assert(e.r == 0 && e.g == 0 && e.b == 0);
    let u = t.diffused(x, e);
    assert forall|i: int| 0 <= i < 3 * s.width implies (#[trigger] u.cur[i]) == 0 && u.nxt[i]
        == 0 by {
        assert(e.channel(i % 3) == 0);
        assert(t.cur[i] == 0 && t.nxt[i] == 0);
    }
}

/// Largest error that the pixel `d` columns right of the last pixel of the
/// current row can hold in the current row, when the pixels of each row come
/// from left to right.
pub open spec fn drift_beside(d: int) -> int {
    if d >= 2 {
        141
    } else {
        252
    }
}

/// Largest error that the pixel `d` columns right of the last pixel of the
/// current row can hold in the row below.
pub open spec fn drift_below(d: int) -> int {
    if d <= -1 {
        141
    } else if d == 0 {
        94
    } else if d == 1 {
        15
    } else {
        0
    }
}

impl FsState {
    /// Whether the accumulated error is within the drift that in-order
    /// mapping allows, where `last` is the column of the last pixel mapped
    /// in the current row, or -1 if none was. No entry is then beyond 252,
    /// however wide the canvas and however many rows have gone by.
    pub open spec fn within_drift(self, last: int) -> bool {
        &&& self.wf()
        &&& forall|i: int|
            0 <= i < self.cur.len() ==> -drift_beside(i / 3 - last) <= #[trigger] self.cur[i]
                <= drift_beside(i / 3 - last)
        &&& forall|i: int|
            0 <= i < self.nxt.len() ==> -drift_below(i / 3 - last) <= #[trigger] self.nxt[i]
                <= drift_below(i / 3 - last)
    }
}

/// A state without error is within the drift, wherever the last pixel was:
/// so is the state of a new strategy.
pub proof fn lemma_no_error_is_within_drift(s: FsState, last: int)
    requires
        s.wf(),
        forall|i: int| 0 <= i < 3 * s.width ==> s.cur[i] == 0 && s.nxt[i] == 0,
    ensures
        s.within_drift(last),
{
}

/// A row change keeps the error within the drift: the new current row holds
/// what was gathered below, and no pixel of it has been mapped.
pub proof fn lemma_roll_keeps_drift(s: FsState, last: int, y: int)
    requires
        s.within_drift(last),
    ensures
        s.rolled(y).within_drift(-1),
{
    let t = s.rolled(y);
    assert forall|i: int| 0 <= i < t.cur.len() implies -drift_beside(i / 3 + 1)
        <= #[trigger] t.cur[i] <= drift_beside(i / 3 + 1) by {
        assert(t.cur[i] == s.nxt[i]);
    }
}

/// Mapping a pixel keeps the error within the drift, if the pixel begins a
/// row or lies right of the last pixel of its row. No sum saturates then:
/// each neighbour gets exactly its share.
pub proof fn lemma_step_keeps_drift(s: FsState, last: int, x: int, y: int, rgb: Rgb)
    requires
        s.within_drift(last),
        0 <= x < s.width,
        s.starts_row(x, y) || last < x,
    ensures
        s.step(x, y, rgb).within_drift(x),
        ({
            let t = s.entered(x, y);
            let adj = t.adjusted(x, rgb);
            let e = adj.minus(nearest(adj).reference());
            &&& forall|i: int|
                0 <= i < 3 * s.width ==> #[trigger] s.step(x, y, rgb).cur[i] == t.cur[i]
                    + share_beside(e.channel(i % 3), i / 3 - x)
            &&& forall|i: int|
                0 <= i < 3 * s.width ==> #[trigger] s.step(x, y, rgb).nxt[i] == t.nxt[i]
                    + share_below(e.channel(i % 3), i / 3 - x)
        }),
{
    let t = s.entered(x, y);
    let p = if s.starts_row(x, y) {
        -1
    } else {
        last
    };
    if s.starts_row(x, y) {
        lemma_roll_keeps_drift(s, last, y);
    }
    assert(t.within_drift(p) && p < x);
    let adj = t.adjusted(x, rgb);
    let c = nearest(adj);
    let e = adj.minus(c.reference());
    assert(-255 <= e.r <= 255 && -255 <= e.g <= 255 && -255 <= e.b <= 255);
    let u = t.diffused(x, e);
    assert(u == s.step(x, y, rgb));
    assert forall|i: int| 0 <= i < 3 * s.width implies #[trigger] u.cur[i] == t.cur[i]
        + share_beside(e.channel(i % 3), i / 3 - x) && -drift_beside(i / 3 - x) <= u.cur[i]
        <= drift_beside(i / 3 - x) by {
        let v = e.channel(i % 3);
        assert(-255 <= v <= 255);
        assert(-111 <= share(v, 7) <= 111);
        assert(-drift_beside(i / 3 - p) <= t.cur[i] <= drift_beside(i / 3 - p));
    }
    assert forall|i: int| 0 <= i < 3 * s.width implies #[trigger] u.nxt[i] == t.nxt[i]
        + share_below(e.channel(i % 3), i / 3 - x) && -drift_below(i / 3 - x) <= u.nxt[i]
        <= drift_below(i / 3 - x) by {
        let v = e.channel(i % 3);
        assert(-255 <= v <= 255);
        assert(-47 <= share(v, 3) <= 47);
        assert(-79 <= share(v, 5) <= 79);
        assert(-15 <= share(v, 1) <= 15);
        assert(-drift_below(i / 3 - p) <= t.nxt[i] <= drift_below(i / 3 - p));
    }
}

} // verus!

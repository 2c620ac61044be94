//! Pixel buffers: a one-channel brightness field and an RGBA canvas, both
//! stored row by row.
use vstd::arithmetic::div_mod::lemma_fundamental_div_mod_converse;
use vstd::prelude::*;

verus! {

/// Flat position `y * w + x` splits back into row `y` and column `x`.
pub proof fn lemma_row_major(x: int, y: int, w: int)
    requires
        0 <= x < w,
        0 <= y,
    ensures
        (y * w + x) / w == y,
        (y * w + x) % w == x,
{
    lemma_fundamental_div_mod_converse(y * w + x, w, y, x);
}

/// A position inside a `w` by `h` grid lies inside its flat buffer.
pub proof fn lemma_inside_grid(x: int, y: int, w: int, h: int)
    requires
        0 <= x < w,
        0 <= y < h,
    ensures
        0 <= y * w + x < w * h,
        (y * w + x) * 4 + 3 < w * h * 4,
{
    assert(y * w + x < w * h) by (nonlinear_arith)
        requires
            0 <= x < w,
            0 <= y < h,
    ;
    assert(0 <= y * w) by (nonlinear_arith)
        requires
            0 <= x < w,
            0 <= y < h,
    ;
}

/// A single-channel 8-bit brightness field, `width` by `height`.
#[derive(Debug, Clone)]
pub struct Source {
    pub width: u32,
    pub height: u32,
    pub pixels: Vec<u8>,
}

impl Source {
    /// The buffer holds exactly one sample per pixel.
    pub open spec fn wf(&self) -> bool {
        self.pixels@.len() == self.width * self.height
    }

    /// The sample at column `x`, row `y`.
    pub open spec fn at(&self, x: int, y: int) -> u8 {
        self.pixels@[y * self.width + x]
    }

    /// Wraps a row-major sample buffer; `None` when its length is not
    /// `width * height`.
    pub fn new(width: u32, height: u32, pixels: Vec<u8>) -> (r: Option<Source>)
        ensures
            r is Some <==> pixels@.len() == width * height,
            r matches Some(s) ==> s.wf() && s.width == width && s.height == height
                && s.pixels@ == pixels@,
    {
        assert(width * height <= u32::MAX * u32::MAX) by (nonlinear_arith);
        let area: u128 = width as u128 * height as u128;
        if pixels.len() as u128 == area {
            Some(Source { width, height, pixels })
        } else {
            None
        }
    }

    /// Replaces every sample `v` by `255 - v`.
    pub fn invert(&mut self)
        requires
            old(self).wf(),
        ensures
            final(self).wf(),
            final(self).width == old(self).width,
            final(self).height == old(self).height,
            final(self).pixels@.len() == old(self).pixels@.len(),
            forall|i: int|
                0 <= i < old(self).pixels@.len() ==> #[trigger] final(self).pixels@[i] == 255
                    - old(self).pixels@[i],
    {
        let n = self.pixels.len();
        let mut i: usize = 0;
        while i < n
            invariant
                0 <= i <= n,
                n == old(self).pixels@.len(),
                self.width == old(self).width,
                self.height == old(self).height,
                self.pixels@.len() == n,
                forall|j: int| 0 <= j < i ==> #[trigger] self.pixels@[j] == 255 - old(self).pixels@[j],
                forall|j: int| i <= j < n ==> #[trigger] self.pixels@[j] == old(self).pixels@[j],
            decreases n - i,
        {
            let v = self.pixels[i];
            self.pixels.set(i, 255 - v);
            i = i + 1;
        }
    }

    /// The largest square anchored at the top-left corner: its side is the
    /// smaller of width and height, and it keeps the samples it covers.
    pub fn crop_square(&self) -> (r: Source)
        requires
            self.wf(),
        ensures
            r.wf(),
            r.width == r.height,
            r.width == if self.width <= self.height { self.width } else { self.height },
            forall|x: int, y: int|
                0 <= x < r.width && 0 <= y < r.width ==> #[trigger] r.at(x, y) == self.at(x, y),
    {
        let side: u32 = if self.width <= self.height { self.width } else { self.height };
        let n = self.pixels.len();
        let mut out: Vec<u8> = Vec::new();
        let mut y: u32 = 0;
        while y < side
            invariant
                self.wf(),
                n == self.pixels@.len(),
                side <= self.width,
                side <= self.height,
                0 <= y <= side,
                out@.len() == y * side,
                forall|i: int|
                    0 <= i < out@.len() ==> #[trigger] out@[i] == self.at(i % side as int, i / side as int),
            decreases side - y,
        {
            let mut x: u32 = 0;
            while x < side
                invariant
                    self.wf(),
                    n == self.pixels@.len(),
                    side <= self.width,
                    side <= self.height,
                    0 <= y < side,
                    0 <= x <= side,
                    out@.len() == y * side + x,
                    forall|i: int|
                        0 <= i < out@.len() ==> #[trigger] out@[i] == self.at(i % side as int, i / side as int),
                decreases side - x,
            {
                proof {
                    lemma_inside_grid(x as int, y as int, self.width as int, self.height as int);
                    lemma_row_major(x as int, y as int, side as int);
                }
                let v = self.pixels[y as usize * self.width as usize + x as usize];
                out.push(v);
                x = x + 1;
            }
            proof {
                assert(out@.len() == (y + 1) * side) by (nonlinear_arith)
                    requires out@.len() == y * side + side;
            }
            y = y + 1;
        }
        let r = Source { width: side, height: side, pixels: out };
        assert forall|x: int, y: int| 0 <= x < r.width && 0 <= y < r.width implies #[trigger] r.at(x, y) == self.at(x, y) by {
            lemma_inside_grid(x, y, side as int, side as int);
            lemma_row_major(x, y, side as int);
        }
        r
    }
}

/// Byte `i` of a row-major RGBA buffer `w` pixels wide is channel `k` of the
/// pixel at column `x`, row `y`.
pub proof fn lemma_rgba_index(x: int, y: int, k: int, w: int)
    requires
        0 <= x < w,
        0 <= y,
        0 <= k < 4,
    ensures
        ((y * w + x) * 4 + k) / 4 == y * w + x,
        ((y * w + x) * 4 + k) % 4 == k,
        ((y * w + x) * 4 + k) / 4 / w == y,
        ((y * w + x) * 4 + k) / 4 % w == x,
{
    assert(0 <= y * w) by (nonlinear_arith)
        requires
            0 <= x < w,
            0 <= y,
    ;
    lemma_fundamental_div_mod_converse((y * w + x) * 4 + k, 4, y * w + x, k);
    lemma_row_major(x, y, w);
}

/// An RGBA image with 8 bits per channel, `width` by `height`.
#[derive(Debug, Clone)]
pub struct Canvas {
    pub width: u32,
    pub height: u32,
    pub pixels: Vec<u8>,
}

impl Canvas {
    /// The buffer holds exactly four channels per pixel.
    pub open spec fn wf(&self) -> bool {
        self.pixels@.len() == self.width * self.height * 4
    }

    /// Channel `k` (red, green, blue, alpha) of the pixel at column `x`,
    /// row `y`.
    pub open spec fn byte(&self, x: int, y: int, k: int) -> u8 {
        self.pixels@[(y * self.width + x) * 4 + k]
    }

    /// Wraps a row-major RGBA buffer; `None` when its length is not
    /// `width * height * 4`.
    pub fn new(width: u32, height: u32, pixels: Vec<u8>) -> (r: Option<Canvas>)
        ensures
            r is Some <==> pixels@.len() == width * height * 4,
            r matches Some(c) ==> c.wf() && c.width == width && c.height == height
                && c.pixels@ == pixels@,
    {
        assert(width * height * 4 <= u32::MAX * u32::MAX * 4) by (nonlinear_arith);
        let size: u128 = width as u128 * height as u128 * 4;
        if pixels.len() as u128 == size {
            Some(Canvas { width, height, pixels })
        } else {
            None
        }
    }

    /// Replaces every colour channel `v` by `255 - v` and keeps alpha.
    pub fn invert_colors(&mut self)
        requires
            old(self).wf(),
        ensures
            final(self).wf(),
            final(self).width == old(self).width,
            final(self).height == old(self).height,
            final(self).pixels@ == inverted_colors(old(self).pixels@),
    {
        let n = self.pixels.len();
        let mut i: usize = 0;
        while i < n
            invariant
                0 <= i <= n,
                n == old(self).pixels@.len(),
                self.width == old(self).width,
                self.height == old(self).height,
                self.pixels@.len() == n,
                forall|j: int|
                    0 <= j < i ==> #[trigger] self.pixels@[j] == inverted_channel(
                        old(self).pixels@[j],
                        j,
                    ),
                forall|j: int| i <= j < n ==> #[trigger] self.pixels@[j] == old(self).pixels@[j],
            decreases n - i,
        {
            if i % 4 != 3 {
                let v = self.pixels[i];
                self.pixels.set(i, 255 - v);
            }
            i = i + 1;
        }
        assert(self.pixels@ =~= inverted_colors(old(self).pixels@));
    }
}

/// Byte `v` at position `j` of an RGBA buffer after colour inversion.
pub open spec fn inverted_channel(v: u8, j: int) -> u8 {
    if j % 4 == 3 {
        v
    } else {
        (255 - v) as u8
    }
}

/// An RGBA buffer with its colour channels inverted and alpha kept.
pub open spec fn inverted_colors(p: Seq<u8>) -> Seq<u8> {
    Seq::new(p.len(), |j: int| inverted_channel(p[j], j))
}

/// Readies a decoded brightness field for the compositor: inverts it when
/// `invert` is set, then keeps only its top-left square when `square` is
/// set.
pub fn prepare_source(source: Source, invert: bool, square: bool) -> (r: Source)
    requires
        source.wf(),
    ensures
        r.wf(),
        r.width == if square && source.height < source.width { source.height } else { source.width },
        r.height == if square && source.width < source.height { source.width } else { source.height },
        forall|x: int, y: int|
            0 <= x < r.width && 0 <= y < r.height ==> #[trigger] r.at(x, y) == if invert {
                (255 - source.at(x, y)) as u8
            } else {
                source.at(x, y)
            },
{
    let mut s = source;
    if invert {
        s.invert();
        proof {
            assert forall|x: int, y: int| 0 <= x < s.width && 0 <= y < s.height implies #[trigger] s.at(x, y)
                == (255 - source.at(x, y)) as u8 by {
                lemma_inside_grid(x, y, s.width as int, s.height as int);
            }
        }
    }
    if square {
        s.crop_square()
    } else {
        s
    }
}

} // verus!

//! Fitting a canvas into a target size: scaled to keep its aspect ratio,
//! then centred on a transparent background.
use crate::raster::{lemma_inside_grid, lemma_rgba_index, Canvas};
use crate::resample::{lanczos_resized, resize_lanczos};
use vstd::arithmetic::div_mod::{lemma_fundamental_div_mod, lemma_mod_pos_bound};
use vstd::prelude::*;

verus! {

/// Whether a `cw` by `ch` canvas fitted into `tw` by `th` is bounded by the
/// height: the target is wider, in proportion, than the canvas.
pub open spec fn by_height(cw: int, ch: int, tw: int, th: int) -> bool {
    tw * ch > th * cw
}

/// `a / d` rounded to the nearest integer, halves rounded up.
pub open spec fn round_div(a: int, d: int) -> int {
    (2 * a + d) / (2 * d)
}

/// Width of the scaled canvas inside the target.
pub open spec fn fitted_width(cw: int, ch: int, tw: int, th: int) -> int {
    if by_height(cw, ch, tw, th) {
        round_div(th * cw, ch)
    } else {
        tw
    }
}

/// Height of the scaled canvas inside the target.
pub open spec fn fitted_height(cw: int, ch: int, tw: int, th: int) -> int {
    if by_height(cw, ch, tw, th) {
        th
    } else {
        round_div(tw * ch, cw)
    }
}

/// Channel `k` of pixel (`x`, `y`) of `c` fitted into `tw` by `th`: the
/// scaled canvas where it covers the pixel with some opacity, transparent
/// black elsewhere (a fully transparent pixel laid over the transparent
/// background leaves it as it is).
pub open spec fn fitted_byte(c: Canvas, tw: int, th: int, x: int, y: int, k: int) -> u8 {
    let cw = c.width as int;
    let ch = c.height as int;
    let nw = fitted_width(cw, ch, tw, th);
    let nh = fitted_height(cw, ch, tw, th);
    let ox = (tw - nw) / 2;
    let oy = (th - nh) / 2;
    let scaled = lanczos_resized(c.pixels@, c.width, c.height, nw as u32, nh as u32);
    let base = ((y - oy) * nw + (x - ox)) * 4;
    if ox <= x < ox + nw && oy <= y < oy + nh && scaled[base + 3] != 0 {
        scaled[base + k]
    } else {
        0
    }
}

/// Why a canvas could not be fitted.
#[derive(Debug, Clone, Copy, PartialEq, Eq, Structural)]
pub enum FitError {
    /// The target width or height is zero.
    ZeroTarget,
}

/// Rounding `a / d` to the nearest integer is off by at most one half.
proof fn lemma_round_div(a: int, d: int)
    requires
        a >= 0,
        d > 0,
    ensures
        2 * (round_div(a, d) * d) <= 2 * a + d,
        2 * a < 2 * (round_div(a, d) * d) + d,
        round_div(a, d) >= 0,
{
    let q = round_div(a, d);
    let r = (2 * a + d) % (2 * d);
    lemma_fundamental_div_mod(2 * a + d, 2 * d);
    lemma_mod_pos_bound(2 * a + d, 2 * d);
    assert(2 * (q * d) <= 2 * a + d && 2 * a < 2 * (q * d) + d && q >= 0) by (nonlinear_arith)
        requires
            2 * a + d == (2 * d) * q + r,
            0 <= r < 2 * d,
            a >= 0,
            d > 0,
    ;
}

/// The scaled size lies inside the target and keeps the canvas's aspect
/// ratio up to rounding: along the bounding side it fills the target, and
/// along the other it is the exact proportional length rounded to the
/// nearest pixel. Centring leaves paddings on the two sides that differ by
/// at most one pixel.
pub proof fn lemma_fit_keeps_aspect(cw: int, ch: int, tw: int, th: int)
    requires
        cw > 0,
        ch > 0,
        tw > 0,
        th > 0,
    ensures
        ({
            let nw = fitted_width(cw, ch, tw, th);
            let nh = fitted_height(cw, ch, tw, th);
            &&& 0 <= nw <= tw
            &&& 0 <= nh <= th
            &&& by_height(cw, ch, tw, th) ==> nh == th && -ch <= 2 * (nw * ch - nh * cw) <= ch
            &&& !by_height(cw, ch, tw, th) ==> nw == tw && -cw <= 2 * (nh * cw - nw * ch) <= cw
            &&& 0 <= (tw - nw) - 2 * ((tw - nw) / 2) <= 1
            &&& 0 <= (th - nh) - 2 * ((th - nh) / 2) <= 1
        }),
{
    let nw = fitted_width(cw, ch, tw, th);
    let nh = fitted_height(cw, ch, tw, th);
    assert(th * cw >= 0 && tw * ch >= 0) by (nonlinear_arith)
        requires
            cw > 0,
            ch > 0,
            tw > 0,
            th > 0,
    ;
    if by_height(cw, ch, tw, th) {
        lemma_round_div(th * cw, ch);
        assert(nw <= tw) by (nonlinear_arith)
            requires
                2 * (nw * ch) <= 2 * (th * cw) + ch,
                tw * ch > th * cw,
                ch > 0,
        ;
    } else {
        lemma_round_div(tw * ch, cw);
        assert(nh <= th) by (nonlinear_arith)
            requires
                2 * (nh * cw) <= 2 * (tw * ch) + cw,
                tw * ch <= th * cw,
                cw > 0,
        ;
    }
}

/// The size that a `cw` by `ch` canvas is scaled to inside `tw` by `th`.
pub fn fit_size(cw: u32, ch: u32, tw: u32, th: u32) -> (r: (u32, u32))
    requires
        cw > 0,
        ch > 0,
        tw > 0,
        th > 0,
    ensures
        r.0 == fitted_width(cw as int, ch as int, tw as int, th as int),
        r.1 == fitted_height(cw as int, ch as int, tw as int, th as int),
        r.0 <= tw,
        r.1 <= th,
{
    proof {
        lemma_fit_keeps_aspect(cw as int, ch as int, tw as int, th as int);
        assert(tw * ch <= u32::MAX * u32::MAX && th * cw <= u32::MAX * u32::MAX)
            by (nonlinear_arith);
    }
    let wide: u128 = tw as u128 * ch as u128;
    let tall: u128 = th as u128 * cw as u128;
    if wide > tall {
        let nw = (2 * tall + ch as u128) / (2 * ch as u128);
        (nw as u32, th)
    } else {
        let nh = (2 * wide + cw as u128) / (2 * cw as u128);
        (tw, nh as u32)
    }
}

/// Fits `canvas` into a `tw` by `th` canvas: scales it with Lanczos3 to the
/// largest size of the same aspect ratio that fits, and lays it centred
/// over a transparent background. Fails when `tw` or `th` is zero.
pub fn fit(canvas: &Canvas, tw: u32, th: u32) -> (r: Result<Canvas, FitError>)
    requires
        canvas.wf(),
        canvas.width > 0,
        canvas.height > 0,
        tw * th * 4 <= usize::MAX,
        canvas.width * th * 4 <= usize::MAX,
    ensures
        (r == Err::<Canvas, FitError>(FitError::ZeroTarget)) <==> (tw == 0 || th == 0),
        r matches Ok(c) ==> {
            &&& c.wf()
            &&& c.width == tw
            &&& c.height == th
            &&& forall|x: int, y: int, k: int|
                0 <= x < tw && 0 <= y < th && 0 <= k < 4 ==> #[trigger] c.byte(x, y, k)
                    == fitted_byte(*canvas, tw as int, th as int, x, y, k)
        },
{
    if tw == 0 || th == 0 {
        return Err(FitError::ZeroTarget);
    }
    let ghost c0 = *canvas;
    let (nw, nh) = fit_size(canvas.width, canvas.height, tw, th);
    proof {
        assert(nw * nh * 4 <= tw * th * 4) by (nonlinear_arith)
            requires
                nw <= tw,
                nh <= th,
        ;
        assert(canvas.width * nh * 4 <= canvas.width * th * 4) by (nonlinear_arith)
            requires
                nh <= th,
        ;
    }
    let scaled = resize_lanczos(&canvas.pixels, canvas.width, canvas.height, nw, nh);
    let slen = scaled.len();
    let ox: u32 = (tw - nw) / 2;
    let oy: u32 = (th - nh) / 2;
    let mut out: Vec<u8> = Vec::new();
    let mut y: u32 = 0;
    while y < th
        invariant
            c0 == *canvas,
            canvas.width > 0,
            canvas.height > 0,
            nw == fitted_width(canvas.width as int, canvas.height as int, tw as int, th as int),
            nh == fitted_height(canvas.width as int, canvas.height as int, tw as int, th as int),
            nw <= tw,
            nh <= th,
            ox == (tw - nw) / 2,
            oy == (th - nh) / 2,
            scaled@ == lanczos_resized(canvas.pixels@, canvas.width, canvas.height, nw, nh),
            scaled@.len() == nw * nh * 4,
            slen == scaled@.len(),
            0 <= y <= th,
            out@.len() == (y * tw) * 4,
            forall|i: int|
                0 <= i < out@.len() ==> #[trigger] out@[i] == fitted_byte(
                    c0,
                    tw as int,
                    th as int,
                    (i / 4) % tw as int,
                    (i / 4) / tw as int,
                    i % 4,
                ),
        decreases th - y,
    {
        let mut x: u32 = 0;
        while x < tw
            invariant
                c0 == *canvas,
                canvas.width > 0,
                canvas.height > 0,
                nw == fitted_width(canvas.width as int, canvas.height as int, tw as int, th as int),
                nh == fitted_height(canvas.width as int, canvas.height as int, tw as int, th as int),
                nw <= tw,
                nh <= th,
                ox == (tw - nw) / 2,
                oy == (th - nh) / 2,
                scaled@ == lanczos_resized(canvas.pixels@, canvas.width, canvas.height, nw, nh),
                scaled@.len() == nw * nh * 4,
                slen == scaled@.len(),
                0 <= y < th,
                0 <= x <= tw,
                out@.len() == (y * tw + x) * 4,
                forall|i: int|
                    0 <= i < out@.len() ==> #[trigger] out@[i] == fitted_byte(
                        c0,
                        tw as int,
                        th as int,
                        (i / 4) % tw as int,
                        (i / 4) / tw as int,
                        i % 4,
                    ),
            decreases tw - x,
        {
            let ghost before = out@;
            let inside = ox <= x && x < ox + nw && oy <= y && y < oy + nh;
            let mut base: usize = 0;
            if inside {
                proof {
                    lemma_inside_grid((x - ox) as int, (y - oy) as int, nw as int, nh as int);
                }
                base = ((y - oy) as usize * nw as usize + (x - ox) as usize) * 4;
            }
            if inside && scaled[base + 3] != 0 {
                out.push(scaled[base]);
                out.push(scaled[base + 1]);
                out.push(scaled[base + 2]);
                out.push(scaled[base + 3]);
            } else {
                out.push(0);
                out.push(0);
                out.push(0);
                out.push(0);
            }
            proof {
                assert forall|i: int| 0 <= i < out@.len() implies #[trigger] out@[i] == fitted_byte(
                    c0,
                    tw as int,
                    th as int,
                    (i / 4) % tw as int,
                    (i / 4) / tw as int,
                    i % 4,
                ) by {
                    if i >= before.len() {
                        let k = i - before.len();
                        lemma_rgba_index(x as int, y as int, k, tw as int);
                    } else {
                        assert(out@[i] == before[i]);
                    }
                }
            }
            x = x + 1;
        }
        proof {
            assert((y * tw + tw) * 4 == ((y + 1) * tw) * 4) by (nonlinear_arith);
        }
        y = y + 1;
    }
    let c = Canvas { width: tw, height: th, pixels: out };
    proof {
        assert(th * tw * 4 == tw * th * 4) by (nonlinear_arith);
        assert forall|x: int, y: int, k: int|
            0 <= x < tw && 0 <= y < th && 0 <= k < 4 implies #[trigger] c.byte(x, y, k)
            == fitted_byte(c0, tw as int, th as int, x, y, k) by {
            lemma_inside_grid(x, y, tw as int, th as int);
            lemma_rgba_index(x, y, k, tw as int);
        }
    }
    Ok(c)
}

} // verus!

//! Letterbox scale-to-fit: given a pixel-buffer extent and a display-surface
//! extent, compute the destination rectangle that centers the buffer inside
//! the surface, uniformly scaled by `min(win_w / buf_w, win_h / buf_h)` and
//! rounded to the nearest integer.
//!
//! All arithmetic is exact rational arithmetic carried out on integers, so
//! the contracts below pin every output down completely.

use vstd::arithmetic::div_mod::{
    lemma_div_pos_is_pos, lemma_fundamental_div_mod, lemma_fundamental_div_mod_converse,
    lemma_mod_bound,
};
use vstd::arithmetic::mul::lemma_mul_inequality;
use vstd::prelude::*;

verus! {

/// `n / d` rounded to the nearest integer, halves rounded up,
/// for `n >= 0` and `d > 0`.
pub open spec fn rounded_div(n: int, d: int) -> int {
    (2 * n + d) / (2 * d)
}

/// The width axis is the limiting one: scaling the buffer to the full
/// surface width keeps the scaled height within the surface. Ties (equal
/// aspect ratios) fall on the width side; both branches then agree.
pub open spec fn width_limited(buf_w: int, buf_h: int, win_w: int, win_h: int) -> bool {
    win_w * buf_h <= win_h * buf_w
}

/// Width of the destination rectangle: `round(buf_w * ratio)` where
/// `ratio == min(win_w / buf_w, win_h / buf_h)`.
pub open spec fn spec_dst_width(buf_w: int, buf_h: int, win_w: int, win_h: int) -> int {
    if width_limited(buf_w, buf_h, win_w, win_h) {
        win_w
    } else {
        rounded_div(buf_w * win_h, buf_h)
    }
}

/// Height of the destination rectangle: `round(buf_h * ratio)`.
pub open spec fn spec_dst_height(buf_w: int, buf_h: int, win_w: int, win_h: int) -> int {
    if width_limited(buf_w, buf_h, win_w, win_h) {
        rounded_div(buf_h * win_w, buf_w)
    } else {
        win_h
    }
}

/// Horizontal margin: `round((win_w - buf_w * ratio) / 2)`.
pub open spec fn spec_dst_x(buf_w: int, buf_h: int, win_w: int, win_h: int) -> int {
    if width_limited(buf_w, buf_h, win_w, win_h) {
        0
    } else {
        rounded_div(win_w * buf_h - buf_w * win_h, 2 * buf_h)
    }
}

/// Vertical margin: `round((win_h - buf_h * ratio) / 2)`.
pub open spec fn spec_dst_y(buf_w: int, buf_h: int, win_w: int, win_h: int) -> int {
    if width_limited(buf_w, buf_h, win_w, win_h) {
        rounded_div(win_h * buf_w - buf_h * win_w, 2 * buf_w)
    } else {
        0
    }
}

/// Destination rectangle for one frame: offset and extent inside the
/// display surface.
#[derive(Clone, Copy, Debug, PartialEq, Eq, Structural)]
pub struct DstRect {
    pub x: u32,
    pub y: u32,
    pub width: u32,
    pub height: u32,
}

/// A fatal configuration error: the scaling ratio is undefined when the
/// pixel buffer has a zero extent on either axis.
#[derive(Clone, Copy, Debug, PartialEq, Eq, Structural)]
pub enum ConfigError {
    ZeroBufferDimension,
}

impl ConfigError {
    /// A human-readable description, in place of a `Display` impl.
    pub fn message(&self) -> (m: &'static str)
        ensures
            m@ == "pixel buffer width and height must be nonzero"@,
    {
        "pixel buffer width and height must be nonzero"
    }
}

/// Core fact about one scaling axis. Take `w` as the buffer extent on the
/// limiting axis, `a` as the cross product `buffer-extent-on-other-axis *
/// surface-extent-on-limiting-axis`, `win` as the surface extent on the
/// other axis, and `b` as the slack `win * w - a`. Then the rounded scaled
/// extent `rounded_div(a, w)` and the rounded margin `rounded_div(b, 2 * w)`
/// are nonnegative, sum to at most `win`, and the scaled extent is within
/// half a unit (scaled by `w`) of the exact rational value `a / w`.
proof fn lemma_axis_bounds(w: int, a: int, b: int, win: int)
    requires
        1 <= w,
        0 <= a,
        0 <= b,
        0 <= win,
        a + b == win * w,
    ensures
        0 <= rounded_div(a, w),
        0 <= rounded_div(b, 2 * w),
        rounded_div(a, w) + rounded_div(b, 2 * w) <= win,
        2 * a - w <= 2 * (rounded_div(a, w) * w),
        2 * (rounded_div(a, w) * w) <= 2 * a + w,
{
    let q1 = rounded_div(a, w);
    let q2 = rounded_div(b, 2 * w);
    let n1 = 2 * a + w;
    let d1 = 2 * w;
    let n2 = 2 * b + 2 * w;
    let d2 = 4 * w;
    assert(q1 == n1 / d1);
    assert(q2 == n2 / d2);

    lemma_div_pos_is_pos(n1, d1);
    lemma_div_pos_is_pos(n2, d2);

    lemma_fundamental_div_mod(n1, d1);
    lemma_fundamental_div_mod(n2, d2);
    lemma_mod_bound(n1, d1);
    lemma_mod_bound(n2, d2);
    let r1 = n1 % d1;
    let r2 = n2 % d2;
    assert(n1 == d1 * q1 + r1);
    assert(n2 == d2 * q2 + r2);

    assert(d1 * q1 == 2 * (q1 * w)) by (nonlinear_arith)
        requires
            d1 == 2 * w,
    ;
    // The two sides of the half-unit bound: d1 * q1 == n1 - r1 with
    // 0 <= r1 < d1 == 2 * w, and n1 == 2 * a + w.

    if b == 0 {
        assert(a == win * w);
        lemma_fundamental_div_mod_converse(n2, d2, 0, 2 * w);
        assert(q2 == 0);
        assert(n1 == win * d1 + w) by (nonlinear_arith)
            requires
                n1 == 2 * a + w,
                a == win * w,
                d1 == 2 * w,
        ;
        lemma_fundamental_div_mod_converse(n1, d1, win, w);
        assert(q1 == win);
    } else {
        let s = q1 + q2;
        assert(s * d2 == 2 * (d1 * q1) + d2 * q2) by (nonlinear_arith)
            requires
                s == q1 + q2,
                d2 == 2 * d1,
        ;
        assert(s * d2 == 2 * (n1 - r1) + (n2 - r2));
        assert(s * d2 == 4 * a + 2 * b + 4 * w - 2 * r1 - r2);
        assert(4 * a + 2 * b == 2 * a + 2 * (a + b));
        assert(s * d2 == 2 * a + 2 * (win * w) + 4 * w - 2 * r1 - r2);
        assert(a <= win * w - 1);
        assert(s * d2 <= 4 * (win * w) + 4 * w - 2);
        assert((win + 1) * d2 == 4 * (win * w) + 4 * w) by (nonlinear_arith)
            requires
                d2 == 4 * w,
        ;
        assert(s * d2 < (win + 1) * d2);
        if s >= win + 1 {
            lemma_mul_inequality(win + 1, s, d2);
            assert(false);
        }
        assert(s <= win);
    }
}

/// Law: for a nonempty buffer the destination rectangle always lies within
/// the display surface — nonnegative offsets, and offset plus extent at most
/// the surface extent on each axis — and its aspect ratio matches the
/// buffer's up to rounding: the cross products `height * buf_w` and
/// `width * buf_h` differ by at most `(buf_w + buf_h) / 2`.
pub proof fn lemma_dst_within_surface(buf_w: int, buf_h: int, win_w: int, win_h: int)
    requires
        1 <= buf_w,
        1 <= buf_h,
        0 <= win_w,
        0 <= win_h,
    ensures
        0 <= spec_dst_x(buf_w, buf_h, win_w, win_h),
        0 <= spec_dst_y(buf_w, buf_h, win_w, win_h),
        0 <= spec_dst_width(buf_w, buf_h, win_w, win_h),
        0 <= spec_dst_height(buf_w, buf_h, win_w, win_h),
        spec_dst_x(buf_w, buf_h, win_w, win_h) + spec_dst_width(buf_w, buf_h, win_w, win_h)
            <= win_w,
        spec_dst_y(buf_w, buf_h, win_w, win_h) + spec_dst_height(buf_w, buf_h, win_w, win_h)
            <= win_h,
        2 * (spec_dst_height(buf_w, buf_h, win_w, win_h) * buf_w
            - spec_dst_width(buf_w, buf_h, win_w, win_h) * buf_h) <= buf_w + buf_h,
        2 * (spec_dst_width(buf_w, buf_h, win_w, win_h) * buf_h
            - spec_dst_height(buf_w, buf_h, win_w, win_h) * buf_w) <= buf_w + buf_h,
{
    if width_limited(buf_w, buf_h, win_w, win_h) {
        let a = buf_h * win_w;
        let b = win_h * buf_w - buf_h * win_w;
        assert(0 <= buf_h * win_w) by (nonlinear_arith)
            requires
                0 <= buf_h,
                0 <= win_w,
        ;
        assert(win_w * buf_h == buf_h * win_w) by (nonlinear_arith);
        assert(0 <= b);
        lemma_axis_bounds(buf_w, a, b, win_h);
        // spec_dst_height * buf_w is within half of a == buf_h * win_w
        // and spec_dst_width * buf_h == win_w * buf_h == a.
        let dh = spec_dst_height(buf_w, buf_h, win_w, win_h);
        assert(dh == rounded_div(a, buf_w));
        assert(spec_dst_width(buf_w, buf_h, win_w, win_h) * buf_h == a);
        assert(2 * a - buf_w <= 2 * (dh * buf_w) <= 2 * a + buf_w);
    } else {
        let a = buf_w * win_h;
        let b = win_w * buf_h - buf_w * win_h;
        assert(0 <= buf_w * win_h) by (nonlinear_arith)
            requires
                0 <= buf_w,
                0 <= win_h,
        ;
        assert(win_h * buf_w == buf_w * win_h) by (nonlinear_arith);
        assert(0 <= b);
        lemma_axis_bounds(buf_h, a, b, win_w);
        let dw = spec_dst_width(buf_w, buf_h, win_w, win_h);
        assert(dw == rounded_div(a, buf_h));
        assert(spec_dst_height(buf_w, buf_h, win_w, win_h) * buf_w == a);
        assert(2 * a - buf_h <= 2 * (dw * buf_h) <= 2 * a + buf_h);
    }
}

/// Law: the limiting axis fits exactly. When `win_w / buf_w < win_h / buf_h`
/// the destination width equals the surface width and the horizontal margin
/// is zero; symmetrically for the height when `win_h / buf_h < win_w / buf_w`.
/// The comparisons are stated over cross products, which is the same
/// comparison with the positive denominators cleared.
pub proof fn lemma_limiting_axis_exact(buf_w: int, buf_h: int, win_w: int, win_h: int)
    requires
        1 <= buf_w,
        1 <= buf_h,
    ensures
        win_w * buf_h < win_h * buf_w ==> spec_dst_width(buf_w, buf_h, win_w, win_h) == win_w
            && spec_dst_x(buf_w, buf_h, win_w, win_h) == 0,
        win_h * buf_w < win_w * buf_h ==> spec_dst_height(buf_w, buf_h, win_w, win_h) == win_h
            && spec_dst_y(buf_w, buf_h, win_w, win_h) == 0,
{
}

/// Law: a buffer and a surface of equal aspect ratio (equal cross products)
/// yield a destination rectangle that fills the surface exactly, with zero
/// margins.
pub proof fn lemma_equal_aspect_fills_surface(buf_w: int, buf_h: int, win_w: int, win_h: int)
    requires
        1 <= buf_w,
        1 <= buf_h,
        0 <= win_w,
        0 <= win_h,
        win_w * buf_h == win_h * buf_w,
    ensures
        spec_dst_width(buf_w, buf_h, win_w, win_h) == win_w,
        spec_dst_height(buf_w, buf_h, win_w, win_h) == win_h,
        spec_dst_x(buf_w, buf_h, win_w, win_h) == 0,
        spec_dst_y(buf_w, buf_h, win_w, win_h) == 0,
{
    assert(width_limited(buf_w, buf_h, win_w, win_h));
    assert(buf_h * win_w == win_w * buf_h) by (nonlinear_arith);
    // spec_dst_height == rounded_div(win_h * buf_w, buf_w) == win_h.
    assert(2 * (buf_h * win_w) + buf_w == win_h * (2 * buf_w) + buf_w) by (nonlinear_arith)
        requires
            buf_h * win_w == win_h * buf_w,
    ;
    lemma_fundamental_div_mod_converse(2 * (buf_h * win_w) + buf_w, 2 * buf_w, win_h, buf_w);
    assert(spec_dst_height(buf_w, buf_h, win_w, win_h) == win_h);
    // spec_dst_y == rounded_div(0, 2 * buf_w) == 0.
    lemma_fundamental_div_mod_converse(2 * buf_w, 4 * buf_w, 0, 2 * buf_w);
    assert(spec_dst_y(buf_w, buf_h, win_w, win_h) == 0);
}

/// Compute the destination rectangle for scaling a `buf_w x buf_h` pixel
/// buffer into a `win_w x win_h` display surface: uniformly scaled by
/// `min(win_w / buf_w, win_h / buf_h)`, centered, each value rounded to the
/// nearest integer. A zero buffer extent on either axis is rejected, and
/// exactly then; the surface extent may be anything, including zero.
pub fn letterbox(buf_w: u32, buf_h: u32, win_w: u32, win_h: u32) -> (r: Result<
    DstRect,
    ConfigError,
>)
    ensures
        r is Err <==> (buf_w == 0 || buf_h == 0),
        r matches Ok(rect) ==> {
            &&& rect.x == spec_dst_x(buf_w as int, buf_h as int, win_w as int, win_h as int)
            &&& rect.y == spec_dst_y(buf_w as int, buf_h as int, win_w as int, win_h as int)
            &&& rect.width == spec_dst_width(buf_w as int, buf_h as int, win_w as int, win_h as int)
            &&& rect.height == spec_dst_height(
                buf_w as int,
                buf_h as int,
                win_w as int,
                win_h as int,
            )
            &&& rect.x + rect.width <= win_w
            &&& rect.y + rect.height <= win_h
        },
{
    if buf_w == 0 || buf_h == 0 {
        return Err(ConfigError::ZeroBufferDimension);
    }
    let bw = buf_w as u64;
    let bh = buf_h as u64;
    let ww = win_w as u64;
    let wh = win_h as u64;
    proof {
        assert(ww * bh <= 0xffff_ffff * 0xffff_ffff) by (nonlinear_arith)
            requires
                ww <= 0xffff_ffff,
                bh <= 0xffff_ffff,
        ;
        assert(wh * bw <= 0xffff_ffff * 0xffff_ffff) by (nonlinear_arith)
            requires
                wh <= 0xffff_ffff,
                bw <= 0xffff_ffff,
        ;
    }
    let cross_w: u64 = ww * bh;
    let cross_h: u64 = wh * bw;
    let ghost bwi = buf_w as int;
    let ghost bhi = buf_h as int;
    let ghost wwi = win_w as int;
    let ghost whi = win_h as int;
    proof {
        lemma_dst_within_surface(bwi, bhi, wwi, whi);
    }
    if cross_w <= cross_h {
        // The width axis is limiting: the rectangle spans the full surface
        // width; the height and the vertical margin are rounded quotients.
        proof {
            assert(bhi * wwi == wwi * bhi) by (nonlinear_arith);
            lemma_axis_bounds(bwi, bhi * wwi, whi * bwi - bhi * wwi, whi);
        }
        let bdiff: u64 = cross_h - cross_w;
        let den: u128 = 2 * (bw as u128);
        let num_h: u128 = 2 * (cross_w as u128) + (bw as u128);
        let qh: u128 = num_h / den;
        let num_y: u128 = 2 * (bdiff as u128) + den;
        let qy: u128 = num_y / (2 * den);
        proof {
            assert(qh == rounded_div(bhi * wwi, bwi));
            assert(qy == rounded_div(whi * bwi - bhi * wwi, 2 * bwi));
            assert(qh <= whi);
            assert(qy <= whi);
        }
        Ok(
            DstRect {
                x: 0,
                y: qy as u32,
                width: win_w,
                height: qh as u32,
            },
        )
    } else {
        // The height axis is limiting: the rectangle spans the full surface
        // height; the width and the horizontal margin are rounded quotients.
        proof {
            assert(bwi * whi == whi * bwi) by (nonlinear_arith);
            lemma_axis_bounds(bhi, bwi * whi, wwi * bhi - bwi * whi, wwi);
        }
        let bdiff: u64 = cross_w - cross_h;
        let den: u128 = 2 * (bh as u128);
        let num_w: u128 = 2 * (cross_h as u128) + (bh as u128);
        let qw: u128 = num_w / den;
        let num_x: u128 = 2 * (bdiff as u128) + den;
        let qx: u128 = num_x / (2 * den);
        proof {
            assert(qw == rounded_div(bwi * whi, bhi));
            assert(qx == rounded_div(wwi * bhi - bwi * whi, 2 * bhi));
            assert(qw <= wwi);
            assert(qx <= wwi);
        }
        Ok(
            DstRect {
                x: qx as u32,
                y: 0,
                width: qw as u32,
                height: win_h,
            },
        )
    }
}

} // verus!

//! Coordinate spaces: logical units, physical pixels, and the scale between them.
//!
//! Logical coordinates are integers counted in logical units. The scale is an
//! exact ratio of physical pixels per logical unit, so an embedding that needs
//! finer than whole-point precision picks a finer unit and folds the factor into
//! the denominator.

use vstd::prelude::*;
use vstd::arithmetic::div_mod::{
    lemma_div_is_ordered,
    lemma_fundamental_div_mod,
    lemma_fundamental_div_mod_converse,
};

verus! {

/// The quotient `n / d` rounded to the nearest integer, a half rounded up.
pub open spec fn round_div(n: int, d: int) -> int {
    (2 * n + d) / (2 * d)
}

/// `v` limited to the range `0 ..= hi`.
pub open spec fn clamp(v: int, hi: int) -> int {
    if v < 0 {
        0
    } else if v > hi {
        hi
    } else {
        v
    }
}

/// Rounding is exact on multiples: `k * d` divided by `d` is `k`.
pub proof fn lemma_round_div_exact(k: int, d: int)
    requires
        d > 0,
    ensures
        round_div(k * d, d) == k,
{
    assert(2 * (k * d) + d == k * (2 * d) + d) by (nonlinear_arith);
    lemma_fundamental_div_mod_converse(2 * (k * d) + d, 2 * d, k, d);
}

/// Rounding keeps order.
pub proof fn lemma_round_div_monotonic(a: int, b: int, d: int)
    requires
        d > 0,
        a <= b,
    ensures
        round_div(a, d) <= round_div(b, d),
{
    lemma_div_is_ordered(2 * a + d, 2 * b + d, 2 * d);
}

/// A rounded quotient lies between zero and the dividend.
pub proof fn lemma_round_div_bounds(n: int, d: int)
    requires
        d > 0,
    ensures
        n >= 0 ==> 0 <= round_div(n, d) <= n,
        n <= 0 ==> n <= round_div(n, d) <= 0,
{
    let t = 2 * n + d;
    let m = 2 * d;
    let q = t / m;
    let r = t % m;
    lemma_fundamental_div_mod(t, m);
    assert(0 <= r < m) by {
        vstd::arithmetic::div_mod::lemma_mod_bound(t, m);
    }
    assert(t == m * q + r);
    if n >= 0 {
        assert(q >= 0) by (nonlinear_arith)
            requires
                t == m * q + r,
                t >= 0,
                m > 0,
                r < m,
        ;
        assert(q <= n) by (nonlinear_arith)
            requires
                t == m * q + r,
                t == 2 * n + d,
                m == 2 * d,
                d > 0,
                n >= 0,
                r >= 0,
        ;
    }
    if n <= 0 {
        assert(q <= 0) by (nonlinear_arith)
            requires
                t == m * q + r,
                t == 2 * n + d,
                m == 2 * d,
                d > 0,
                n <= 0,
                r >= 0,
        ;
        assert(q >= n) by (nonlinear_arith)
            requires
                t == m * q + r,
                t == 2 * n + d,
                m == 2 * d,
                d > 0,
                n <= 0,
                r < m,
        ;
    }
}

/// Computes `round_div` on machine integers.
fn rounded_quotient(n: i128, d: i128) -> (q: i128)
    requires
        0 < d < 0x1_0000_0000,
        -0x8000_0000_0000_0000 <= n <= 0xFFFF_FFFF_FFFF_FFFF,
    ensures
        q == round_div(n as int, d as int),
{
    let t: i128 = 2 * n + d;
    let m: i128 = 2 * d;
    if t >= 0 {
        t / m
    } else {
        let up: i128 = (-t + (m - 1)) / m;
        proof {
            let top: int = -t + (m - 1);
            let rem: int = top % (m as int);
            lemma_fundamental_div_mod(top, m as int);
            vstd::arithmetic::div_mod::lemma_mod_bound(top, m as int);
            assert(t == (-up) * m + (m - 1 - rem)) by (nonlinear_arith)
                requires
                    top == -t + (m - 1),
                    top == m * up + rem,
            ;
            lemma_fundamental_div_mod_converse(t as int, m as int, -up, m - 1 - rem);
        }
        -up
    }
}

/// Physical pixels per logical unit, as the exact ratio `num / den`.
#[derive(Clone, Copy, Debug, PartialEq, Eq, Structural)]
pub struct Scale {
    pub num: u32,
    pub den: u32,
}

impl Scale {
    /// Both terms of the ratio are positive.
    pub open spec fn wf(self) -> bool {
        self.num > 0 && self.den > 0
    }

    /// The physical coordinate of the logical coordinate `v`.
    pub open spec fn physical(self, v: int) -> int {
        round_div(v * self.num, self.den as int)
    }

    /// The logical length of `p` physical pixels.
    pub open spec fn logical(self, p: int) -> int {
        round_div(p * self.den, self.num as int)
    }

    /// A scale of `num / den`, or `None` when either term is zero.
    pub fn new(num: u32, den: u32) -> (scale: Option<Scale>)
        ensures
            scale == if num > 0 && den > 0 {
                Some(Scale { num, den })
            } else {
                None
            },
    {
        if num > 0 && den > 0 {
            Some(Scale { num, den })
        } else {
            None
        }
    }

    /// One physical pixel per logical unit.
    pub fn identity() -> (scale: Scale)
        ensures
            scale == (Scale { num: 1, den: 1 }),
            scale.wf(),
    {
        Scale { num: 1, den: 1 }
    }

    /// Whether both terms of the ratio are positive.
    pub fn is_valid(&self) -> (ok: bool)
        ensures
            ok == self.wf(),
    {
        self.num > 0 && self.den > 0
    }

    /// Converts a logical coordinate to physical pixels.
    pub fn to_physical(&self, v: i32) -> (p: i64)
        requires
            self.wf(),
        ensures
            p == self.physical(v as int),
    {
        let a: i128 = v as i128;
        let b: i128 = self.num as i128;
        assert(-0x8000_0000_0000_0000 <= a * b <= 0x7FFF_FFFF_FFFF_FFFF) by (nonlinear_arith)
            requires
                -0x8000_0000 <= a < 0x8000_0000,
                0 <= b < 0x1_0000_0000,
        ;
        let n: i128 = a * b;
        let q: i128 = rounded_quotient(n, self.den as i128);
        proof {
            lemma_round_div_bounds(n as int, self.den as int);
        }
        q as i64
    }

    /// Converts a count of physical pixels to logical units.
    pub fn to_logical(&self, p: u32) -> (v: u64)
        requires
            self.wf(),
        ensures
            v == self.logical(p as int),
    {
        let a: i128 = p as i128;
        let b: i128 = self.den as i128;
        assert(0 <= a * b <= 0xFFFF_FFFF_FFFF_FFFF) by (nonlinear_arith)
            requires
                0 <= a < 0x1_0000_0000,
                0 <= b < 0x1_0000_0000,
        ;
        let n: i128 = a * b;
        let q: i128 = rounded_quotient(n, self.num as i128);
        proof {
            lemma_round_div_bounds(n as int, self.num as int);
        }
        q as u64
    }
}

/// The logical length of a count of physical pixels is no negative number and
/// fits sixty-four bits.
pub proof fn lemma_logical_in_range(scale: Scale, p: u32)
    requires
        scale.wf(),
    ensures
        0 <= scale.logical(p as int) <= u64::MAX,
{
    let a = p as int;
    let b = scale.den as int;
    assert(0 <= a * b <= 0xFFFF_FFFF_FFFF_FFFF) by (nonlinear_arith)
        requires
            0 <= a < 0x1_0000_0000,
            0 <= b < 0x1_0000_0000,
    ;
    lemma_round_div_bounds(a * b, scale.num as int);
}

/// Scaling is exact wherever the scaled value is whole: if `v * num == k * den`
/// the physical coordinate of `v` is `k`.
pub proof fn lemma_physical_exact(scale: Scale, v: int, k: int)
    requires
        scale.wf(),
        v * scale.num == k * scale.den,
    ensures
        scale.physical(v) == k,
{
    lemma_round_div_exact(k, scale.den as int);
}

/// Scaling keeps order: a coordinate further along stays further along.
pub proof fn lemma_physical_monotonic(scale: Scale, a: int, b: int)
    requires
        scale.wf(),
        a <= b,
    ensures
        scale.physical(a) <= scale.physical(b),
{
    assert(a * scale.num <= b * scale.num) by (nonlinear_arith)
        requires
            a <= b,
            scale.num > 0,
    ;
    lemma_round_div_monotonic(a * scale.num, b * scale.num, scale.den as int);
}

/// A clip rectangle in logical coordinates: `min` is its top-left corner,
/// `max` the corner diagonally opposite.
#[derive(Clone, Copy, Debug, PartialEq, Eq, Structural)]
pub struct ClipRect {
    pub min_x: i32,
    pub min_y: i32,
    pub max_x: i32,
    pub max_y: i32,
}

impl ClipRect {
    pub open spec fn width(self) -> int {
        self.max_x - self.min_x
    }

    pub open spec fn height(self) -> int {
        self.max_y - self.min_y
    }

    /// A rectangle without area: its width or its height is zero or negative.
    pub open spec fn degenerate(self) -> bool {
        self.width() <= 0 || self.height() <= 0
    }

    pub fn new(min_x: i32, min_y: i32, max_x: i32, max_y: i32) -> (rect: ClipRect)
        ensures
            rect == (ClipRect { min_x, min_y, max_x, max_y }),
    {
        ClipRect { min_x, min_y, max_x, max_y }
    }

    /// Whether the rectangle has no area.
    pub fn is_degenerate(&self) -> (d: bool)
        ensures
            d == self.degenerate(),
    {
        self.max_x <= self.min_x || self.max_y <= self.min_y
    }
}

/// A rectangle in physical pixels, measured from the top-left corner of the
/// surface like the logical rectangle it was scaled from.
#[derive(Clone, Copy, Debug, PartialEq, Eq, Structural)]
pub struct PixelRect {
    pub min_x: i64,
    pub min_y: i64,
    pub max_x: i64,
    pub max_y: i64,
}

impl Scale {
    /// The rectangle `clip` in physical pixels: each coordinate scaled by itself.
    pub open spec fn scaled(self, clip: ClipRect) -> PixelRect {
        PixelRect {
            min_x: self.physical(clip.min_x as int) as i64,
            min_y: self.physical(clip.min_y as int) as i64,
            max_x: self.physical(clip.max_x as int) as i64,
            max_y: self.physical(clip.max_y as int) as i64,
        }
    }

    /// Converts a logical rectangle to physical pixels.
    pub fn scale_rect(&self, clip: &ClipRect) -> (rect: PixelRect)
        requires
            self.wf(),
        ensures
            rect == self.scaled(*clip),
            rect.min_x == self.physical(clip.min_x as int),
            rect.min_y == self.physical(clip.min_y as int),
            rect.max_x == self.physical(clip.max_x as int),
            rect.max_y == self.physical(clip.max_y as int),
    {
        PixelRect {
            min_x: self.to_physical(clip.min_x),
            min_y: self.to_physical(clip.min_y),
            max_x: self.to_physical(clip.max_x),
            max_y: self.to_physical(clip.max_y),
        }
    }
}

/// Scaling keeps a rectangle's orientation: one with area in logical units has
/// no negative extent in pixels, and one without area has none in pixels either.
pub proof fn lemma_scaled_extent(scale: Scale, clip: ClipRect)
    requires
        scale.wf(),
    ensures
        clip.width() >= 0 ==> scale.scaled(clip).max_x >= scale.scaled(clip).min_x,
        clip.height() >= 0 ==> scale.scaled(clip).max_y >= scale.scaled(clip).min_y,
        clip.width() <= 0 ==> scale.scaled(clip).max_x <= scale.scaled(clip).min_x,
        clip.height() <= 0 ==> scale.scaled(clip).max_y <= scale.scaled(clip).min_y,
{
    lemma_scaled_in_range(scale, clip);
    if clip.width() >= 0 {
        lemma_physical_monotonic(scale, clip.min_x as int, clip.max_x as int);
    }
    if clip.width() <= 0 {
        lemma_physical_monotonic(scale, clip.max_x as int, clip.min_x as int);
    }
    if clip.height() >= 0 {
        lemma_physical_monotonic(scale, clip.min_y as int, clip.max_y as int);
    }
    if clip.height() <= 0 {
        lemma_physical_monotonic(scale, clip.max_y as int, clip.min_y as int);
    }
}

/// Every scaled coordinate of a clip rectangle fits the pixel rectangle's fields.
pub proof fn lemma_scaled_in_range(scale: Scale, clip: ClipRect)
    requires
        scale.wf(),
    ensures
        scale.scaled(clip).min_x == scale.physical(clip.min_x as int),
        scale.scaled(clip).min_y == scale.physical(clip.min_y as int),
        scale.scaled(clip).max_x == scale.physical(clip.max_x as int),
        scale.scaled(clip).max_y == scale.physical(clip.max_y as int),
{
    lemma_physical_in_range(scale, clip.min_x);
    lemma_physical_in_range(scale, clip.min_y);
    lemma_physical_in_range(scale, clip.max_x);
    lemma_physical_in_range(scale, clip.max_y);
}

proof fn lemma_physical_in_range(scale: Scale, v: i32)
    requires
        scale.wf(),
    ensures
        i64::MIN <= scale.physical(v as int) <= i64::MAX,
{
    let a = v as int;
    let b = scale.num as int;
    assert(-0x8000_0000_0000_0000 <= a * b <= 0x7FFF_FFFF_FFFF_FFFF) by (nonlinear_arith)
        requires
            -0x8000_0000 <= a < 0x8000_0000,
            0 <= b < 0x1_0000_0000,
    ;
    lemma_round_div_bounds(a * b, scale.den as int);
}

/// Where the target surface has its origin. Scissor rectangles are measured
/// from it; clip rectangles always from the top-left corner.
#[derive(Clone, Copy, Debug, PartialEq, Eq, Structural)]
pub enum SurfaceOrigin {
    TopLeft,
    BottomLeft,
}

/// A scissor rectangle in physical pixels, inside the surface, measured from
/// the surface's origin.
#[derive(Clone, Copy, Debug, PartialEq, Eq, Structural)]
pub struct Scissor {
    pub x: u32,
    pub y: u32,
    pub width: u32,
    pub height: u32,
}

/// The part of `rect` that lies on a surface of `width` by `height` pixels,
/// with the vertical axis flipped where the surface's origin is at the bottom.
pub open spec fn scissor_of(rect: PixelRect, width: u32, height: u32, origin: SurfaceOrigin) -> Scissor {
    let x0 = clamp(rect.min_x as int, width as int);
    let x1 = clamp(rect.max_x as int, width as int);
    let y0 = clamp(rect.min_y as int, height as int);
    let y1 = clamp(rect.max_y as int, height as int);
    Scissor {
        x: x0 as u32,
        y: match origin {
            SurfaceOrigin::TopLeft => y0 as u32,
            SurfaceOrigin::BottomLeft => (height - y1) as u32,
        },
        width: if x1 > x0 {
            (x1 - x0) as u32
        } else {
            0
        },
        height: if y1 > y0 {
            (y1 - y0) as u32
        } else {
            0
        },
    }
}

fn clamp_to(v: i64, hi: u32) -> (c: u32)
    ensures
        c == clamp(v as int, hi as int),
{
    if v < 0 {
        0
    } else if v > hi as i64 {
        hi
    } else {
        v as u32
    }
}

/// Cuts a pixel rectangle down to the surface and measures it from the
/// surface's origin.
pub fn scissor(rect: &PixelRect, width: u32, height: u32, origin: SurfaceOrigin) -> (s: Scissor)
    ensures
        s == scissor_of(*rect, width, height, origin),
{
    let x0: u32 = clamp_to(rect.min_x, width);
    let x1: u32 = clamp_to(rect.max_x, width);
    let y0: u32 = clamp_to(rect.min_y, height);
    let y1: u32 = clamp_to(rect.max_y, height);
    Scissor {
        x: x0,
        y: match origin {
            SurfaceOrigin::TopLeft => y0,
            SurfaceOrigin::BottomLeft => height - y1,
        },
        width: if x1 > x0 {
            x1 - x0
        } else {
            0
        },
        height: if y1 > y0 {
            y1 - y0
        } else {
            0
        },
    }
}

/// A scissor rectangle never reaches beyond the surface.
pub proof fn lemma_scissor_on_surface(rect: PixelRect, width: u32, height: u32, origin: SurfaceOrigin)
    ensures
        scissor_of(rect, width, height, origin).x + scissor_of(rect, width, height, origin).width
            <= width,
        scissor_of(rect, width, height, origin).y + scissor_of(rect, width, height, origin).height
            <= height,
{
}

/// A pixel rectangle that lies on the surface is its own scissor rectangle,
/// but for the vertical flip.
pub proof fn lemma_scissor_of_inner_rect(rect: PixelRect, width: u32, height: u32, origin: SurfaceOrigin)
    requires
        0 <= rect.min_x <= rect.max_x <= width,
        0 <= rect.min_y <= rect.max_y <= height,
    ensures
        scissor_of(rect, width, height, origin).x == rect.min_x,
        scissor_of(rect, width, height, origin).width == rect.max_x - rect.min_x,
        scissor_of(rect, width, height, origin).height == rect.max_y - rect.min_y,
        origin == SurfaceOrigin::TopLeft ==> scissor_of(rect, width, height, origin).y == rect.min_y,
        origin == SurfaceOrigin::BottomLeft ==> scissor_of(rect, width, height, origin).y == height
            - rect.max_y,
{
}

/// The framebuffer's size in physical pixels and the display scale. A change of
/// scale is held back until the next frame begins, so that one frame never
/// works with two scales.
#[derive(Clone, Copy, Debug, PartialEq, Eq, Structural)]
pub struct Viewport {
    pub width: u32,
    pub height: u32,
    pub scale: Scale,
    pub pending_scale: Option<Scale>,
}

impl Viewport {
    pub open spec fn wf(self) -> bool {
        &&& self.scale.wf()
        &&& self.pending_scale matches Some(s) ==> s.wf()
    }

    /// The scale that the next frame will work with.
    pub open spec fn next_scale(self) -> Scale {
        match self.pending_scale {
            Some(s) => s,
            None => self.scale,
        }
    }

    /// The logical size of the screen: the framebuffer's size divided by the scale.
    pub open spec fn logical_size(self) -> (int, int) {
        (self.scale.logical(self.width as int), self.scale.logical(self.height as int))
    }

    pub fn new(width: u32, height: u32, scale: Scale) -> (viewport: Viewport)
        requires
            scale.wf(),
        ensures
            viewport == (Viewport { width, height, scale, pending_scale: None }),
            viewport.wf(),
    {
        Viewport { width, height, scale, pending_scale: None }
    }

    /// Takes a new framebuffer size. It holds at once.
    pub fn resize(&mut self, width: u32, height: u32)
        ensures
            *final(self) == (Viewport { width, height, ..*old(self) }),
    {
        self.width = width;
        self.height = height;
    }

    /// Takes a new display scale and holds it back until the next frame begins.
    /// A scale with a zero term is ignored.
    pub fn request_scale(&mut self, scale: Scale)
        ensures
            scale.wf() ==> *final(self) == (Viewport { pending_scale: Some(scale), ..*old(self) }),
            !scale.wf() ==> *final(self) == *old(self),
    {
        if scale.is_valid() {
            self.pending_scale = Some(scale);
        }
    }

    /// Marks the frame boundary: a scale held back takes effect.
    pub fn begin_frame(&mut self)
        ensures
            *final(self) == (Viewport {
                scale: old(self).next_scale(),
                pending_scale: None,
                ..*old(self)
            }),
    {
        match self.pending_scale {
            Some(s) => {
                self.scale = s;
                self.pending_scale = None;
            },
            None => {},
        }
    }

    /// The logical width and height of the screen.
    pub fn screen_size(&self) -> (size: (u64, u64))
        requires
            self.wf(),
        ensures
            size.0 == self.logical_size().0,
            size.1 == self.logical_size().1,
    {
        (self.scale.to_logical(self.width), self.scale.to_logical(self.height))
    }
}

} // verus!

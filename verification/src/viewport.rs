use vstd::prelude::*;

use crate::ConfigError;

verus! {

/// Fixed-point unit for zoom values: a zoom of one is `2^32`.
pub const ZOOM_ONE: u64 = 4294967296;

/// Largest accepted zoom numerator (a zoom of `2^12`); keeps every viewport
/// denominator within `2^61`.
pub const MAX_ZOOM_NUM: u64 = 17592186044416;

/// Largest accepted denominator of a view window.
pub const MAX_WINDOW_DEN: u64 = 65536;

/// Largest accepted pixel extent of an image axis.
pub const MAX_EXTENT: u64 = 65535;

/// Default multiplicative zoom step per frame, about 1.05 in fixed point.
pub const DEFAULT_ZOOM_FACTOR: u64 = 4509715660;

/// The world-space window that an animation zooms into, at zoom one: a
/// square of side `base_num/den` centered at `(cx_num/den, cy_num/den)`.
/// All coordinates are fractions of the world square `[0,1]x[0,1]`.
#[derive(Clone, Copy, PartialEq, Eq, Structural, Debug)]
pub struct ViewWindow {
    pub cx_num: u64,
    pub cy_num: u64,
    pub base_num: u64,
    pub den: u64,
}

/// A window is accepted when it is non-degenerate and lies inside the world
/// square even at zoom one; deeper zooms only shrink it around its center.
pub open spec fn window_ok(w: ViewWindow) -> bool {
    &&& 1 <= w.den <= MAX_WINDOW_DEN
    &&& 1 <= w.base_num
    &&& w.base_num <= 2 * w.cx_num
    &&& 2 * w.cx_num + w.base_num <= 2 * w.den
    &&& w.base_num <= 2 * w.cy_num
    &&& 2 * w.cy_num + w.base_num <= 2 * w.den
}

pub open spec fn zoom_ok(zn: u64) -> bool {
    ZOOM_ONE <= zn <= MAX_ZOOM_NUM
}

/// The world rectangle mapped onto the output image for one frame:
/// `[x_num/den, (x_num+size_num)/den] x [y_num/den, (y_num+size_num)/den]`.
#[derive(Clone, Copy, PartialEq, Eq, Structural, Debug)]
pub struct Viewport {
    pub x_num: u64,
    pub y_num: u64,
    pub size_num: u64,
    pub den: u64,
}

impl Viewport {
    /// The rectangle is non-empty, lies inside the world square, and its
    /// denominator is small enough for exact projection arithmetic.
    pub open spec fn wf(self) -> bool {
        &&& 1 <= self.size_num
        &&& self.x_num + self.size_num <= self.den
        &&& self.y_num + self.size_num <= self.den
        &&& self.den <= 0x2000000000000000
    }

    /// The world rectangle of `window` under `zoom`: `center +- (base/zoom)/2`
    /// on each axis, all over the common denominator `2 * window.den * zoom`.
    pub fn from_window(window: &ViewWindow, zoom_num: u64) -> (r: Result<Viewport, ConfigError>)
        ensures
            r.is_ok() <==> window_ok(*window) && zoom_ok(zoom_num),
            r.is_ok() ==> ({
                let vp = r.unwrap();
                &&& vp.wf()
                &&& vp.den == 2 * window.den * zoom_num
                &&& vp.x_num == 2 * window.cx_num * zoom_num - window.base_num * ZOOM_ONE
                &&& vp.y_num == 2 * window.cy_num * zoom_num - window.base_num * ZOOM_ONE
                &&& vp.size_num == 2 * window.base_num * ZOOM_ONE
            }),
            !r.is_ok() ==> r == Result::<Viewport, ConfigError>::Err(ConfigError::BadViewport),
    {
        if window.den < 1 || window.den > MAX_WINDOW_DEN || window.base_num < 1 {
            return Err(ConfigError::BadViewport);
        }
        if window.cx_num > window.den || window.cy_num > window.den || window.base_num
            > window.den {
            return Err(ConfigError::BadViewport);
        }
        if 2 * window.cx_num < window.base_num || 2 * window.cx_num + window.base_num > 2
            * window.den {
            return Err(ConfigError::BadViewport);
        }
        if 2 * window.cy_num < window.base_num || 2 * window.cy_num + window.base_num > 2
            * window.den {
            return Err(ConfigError::BadViewport);
        }
        if zoom_num < ZOOM_ONE || zoom_num > MAX_ZOOM_NUM {
            return Err(ConfigError::BadViewport);
        }
        let cx = window.cx_num;
        let cy = window.cy_num;
        let b = window.base_num;
        let d = window.den;
        let z = zoom_num;
        assert(2 * d * z <= 0x2000000000000000 && 2 * cx * z <= 2 * d * z && 2 * cy * z <= 2 * d
            * z) by (nonlinear_arith)
            requires
                1 <= d <= MAX_WINDOW_DEN,
                cx <= d,
                cy <= d,
                ZOOM_ONE <= z <= MAX_ZOOM_NUM,
        ;
        assert(b * ZOOM_ONE <= 2 * cx * z && b * ZOOM_ONE <= 2 * cy * z) by (nonlinear_arith)
            requires
                b <= 2 * cx,
                b <= 2 * cy,
                ZOOM_ONE <= z,
                b >= 0,
                cx >= 0,
                cy >= 0,
        ;
        assert(2 * cx * z + b * ZOOM_ONE <= 2 * d * z && 2 * cy * z + b * ZOOM_ONE <= 2 * d * z)
            by (nonlinear_arith)
            requires
                2 * cx + b <= 2 * d,
                2 * cy + b <= 2 * d,
                ZOOM_ONE <= z,
                b >= 0,
        ;
        assert(1 * 1 <= b * ZOOM_ONE) by (nonlinear_arith)
            requires
                1 <= b,
                1 <= ZOOM_ONE,
        ;
        let den = 2 * d * z;
        let x_num = 2 * cx * z - b * ZOOM_ONE;
        let y_num = 2 * cy * z - b * ZOOM_ONE;
        let size_num = 2 * (b * ZOOM_ONE);
        Ok(Viewport { x_num, y_num, size_num, den })
    }

    /// The world rectangle as `(x_min, y_min, x_max, y_max, den)` numerators
    /// over the shared denominator.
    pub fn world_rect(&self) -> (r: (u64, u64, u64, u64, u64))
        requires
            self.wf(),
        ensures
            r == (
                self.x_num,
                self.y_num,
                (self.x_num + self.size_num) as u64,
                (self.y_num + self.size_num) as u64,
                self.den,
            ),
    {
        (self.x_num, self.y_num, self.x_num + self.size_num, self.y_num + self.size_num, self.den)
    }
}

/// Decides whether a view window is accepted.
pub fn check_window(w: &ViewWindow) -> (r: bool)
    ensures
        r <==> window_ok(*w),
{
    if w.den < 1 || w.den > MAX_WINDOW_DEN || w.base_num < 1 {
        return false;
    }
    if w.cx_num > w.den || w.cy_num > w.den || w.base_num > w.den {
        return false;
    }
    2 * w.cx_num >= w.base_num && 2 * w.cx_num + w.base_num <= 2 * w.den && 2 * w.cy_num
        >= w.base_num && 2 * w.cy_num + w.base_num <= 2 * w.den
}

/// The world coordinate of pixel `p` on an axis of `extent` pixels: the
/// linear interpolation `min + p * size / extent`, as a numerator over the
/// denominator `vp.den * extent`.
pub open spec fn pixel_to_world_spec(min_num: u64, size_num: u64, p: int, extent: int) -> int {
    min_num * extent + p * size_num
}

/// The pixel index an axis world coordinate falls into: the floor of
/// `(w - min) * extent / size`, for `w` given as a numerator over
/// `vp.den * extent`; coordinates left of the viewport clamp to pixel 0.
pub open spec fn world_to_pixel_spec(min_num: u64, size_num: u64, num: int, extent: int) -> int {
    if num <= min_num * extent {
        0
    } else {
        (num - min_num * extent) / (size_num as int)
    }
}

impl Viewport {
    /// World x-coordinate of pixel column `px`, over `self.den * extent`.
    pub fn pixel_to_world_x(&self, px: u64, extent: u64) -> (r: u128)
        requires
            self.wf(),
            1 <= extent <= MAX_EXTENT,
            px < extent,
        ensures
            r == pixel_to_world_spec(self.x_num, self.size_num, px as int, extent as int),
    {
        proof {
            crate::lemma_mul_bounds(self.x_num as int, extent as int, 0x2000000000000000, 65535);
            crate::lemma_mul_bounds(px as int, self.size_num as int, 65535, 0x2000000000000000);
        }
        self.x_num as u128 * extent as u128 + px as u128 * self.size_num as u128
    }

    /// World y-coordinate of pixel row `py`, over `self.den * extent`.
    pub fn pixel_to_world_y(&self, py: u64, extent: u64) -> (r: u128)
        requires
            self.wf(),
            1 <= extent <= MAX_EXTENT,
            py < extent,
        ensures
            r == pixel_to_world_spec(self.y_num, self.size_num, py as int, extent as int),
    {
        proof {
            crate::lemma_mul_bounds(self.y_num as int, extent as int, 0x2000000000000000, 65535);
            crate::lemma_mul_bounds(py as int, self.size_num as int, 65535, 0x2000000000000000);
        }
        self.y_num as u128 * extent as u128 + py as u128 * self.size_num as u128
    }

    /// Pixel column of a world x-coordinate given over `self.den * extent`.
    pub fn world_to_pixel_x(&self, num: u128, extent: u64) -> (r: u128)
        requires
            self.wf(),
            1 <= extent <= MAX_EXTENT,
        ensures
            r == world_to_pixel_spec(self.x_num, self.size_num, num as int, extent as int),
    {
        proof {
            crate::lemma_mul_bounds(self.x_num as int, extent as int, 0x2000000000000000, 65535);
        }
        let base = self.x_num as u128 * extent as u128;
        if num <= base {
            0
        } else {
            (num - base) / self.size_num as u128
        }
    }

    /// Pixel row of a world y-coordinate given over `self.den * extent`.
    pub fn world_to_pixel_y(&self, num: u128, extent: u64) -> (r: u128)
        requires
            self.wf(),
            1 <= extent <= MAX_EXTENT,
        ensures
            r == world_to_pixel_spec(self.y_num, self.size_num, num as int, extent as int),
    {
        proof {
            crate::lemma_mul_bounds(self.y_num as int, extent as int, 0x2000000000000000, 65535);
        }
        let base = self.y_num as u128 * extent as u128;
        if num <= base {
            0
        } else {
            (num - base) / self.size_num as u128
        }
    }
}

/// Mapping a pixel to world space and back recovers the pixel index exactly
/// (well within the tolerance of one pixel), for every in-bounds pixel.
pub proof fn lemma_pixel_round_trip(min_num: u64, size_num: u64, p: int, extent: int)
    requires
        1 <= size_num,
        0 <= p < extent,
    ensures
        world_to_pixel_spec(
            min_num,
            size_num,
            pixel_to_world_spec(min_num, size_num, p, extent),
            extent,
        ) == p,
{
    let num = pixel_to_world_spec(min_num, size_num, p, extent);
    assert(num - min_num * extent == p * size_num);
    if p == 0 {
        assert(num <= min_num * extent);
    } else {
        assert(num > min_num * extent) by (nonlinear_arith)
            requires
                num - min_num * extent == p * size_num,
                p >= 1,
                size_num >= 1,
        ;
        vstd::arithmetic::div_mod::lemma_div_multiples_vanish(p, size_num as int);
        assert(p * size_num == (size_num as int) * p) by (nonlinear_arith);
    }
}

/// The effective zoom numerator after `n` frames: each frame multiplies by
/// `factor` in fixed point, truncating below the `2^-32` unit.
pub open spec fn zoom_after(z0: u64, factor: u64, n: nat) -> int
    decreases n,
{
    if n == 0 {
        z0 as int
    } else {
        zoom_after(z0, factor, (n - 1) as nat) * factor / (ZOOM_ONE as int)
    }
}

/// One zoom step: `z * factor` in fixed point, refused if it leaves `u64`.
pub fn advance_zoom(z: u64, factor: u64) -> (r: Option<u64>)
    ensures
        match r {
            Some(v) => v == z * factor / (ZOOM_ONE as int),
            None => z * factor / (ZOOM_ONE as int) > u64::MAX,
        },
{
    proof {
        crate::lemma_u64_mul_fits(z, factor);
    }
    let p: u128 = z as u128 * factor as u128;
    let q: u128 = p / (ZOOM_ONE as u128);
    if q > u64::MAX as u128 {
        None
    } else {
        Some(q as u64)
    }
}

/// The zoom never decreases across the animation and never falls below one,
/// as long as the start zoom and the per-frame factor are at least one.
pub proof fn lemma_zoom_monotone(z0: u64, factor: u64, n: nat)
    requires
        z0 >= ZOOM_ONE,
        factor >= ZOOM_ONE,
    ensures
        zoom_after(z0, factor, n) >= ZOOM_ONE,
        zoom_after(z0, factor, n + 1) >= zoom_after(z0, factor, n),
    decreases n,
{
    if n == 0 {
        zoom_step_grows(z0 as int, factor);
    } else {
        lemma_zoom_monotone(z0, factor, (n - 1) as nat);
        zoom_step_grows(zoom_after(z0, factor, n), factor);
    }
}

/// One truncating fixed-point step by a factor of at least one never
/// shrinks a zoom that is at least one.
proof fn zoom_step_grows(z: int, factor: u64)
    requires
        z >= ZOOM_ONE,
        factor >= ZOOM_ONE,
    ensures
        z * factor / (ZOOM_ONE as int) >= z,
{
    assert(z * factor >= z * ZOOM_ONE) by (nonlinear_arith)
        requires
            z >= 0,
            factor >= ZOOM_ONE,
    ;
    vstd::arithmetic::div_mod::lemma_div_is_ordered(
        z * (ZOOM_ONE as int),
        z * factor,
        ZOOM_ONE as int,
    );
    vstd::arithmetic::div_mod::lemma_div_multiples_vanish(z, ZOOM_ONE as int);
    assert(z * (ZOOM_ONE as int) == (ZOOM_ONE as int) * z) by (nonlinear_arith);
}

/// The truncating fixed-point zoom never exceeds the exact rational power
/// it approximates: after `n` frames it stays within `z0 * factor^n`,
/// scaled back by the fixed-point unit per step.
pub proof fn lemma_zoom_below_ideal(z0: u64, factor: u64, n: nat)
    requires
        z0 >= ZOOM_ONE,
        factor >= ZOOM_ONE,
    ensures
        zoom_after(z0, factor, n) * vstd::arithmetic::power::pow(ZOOM_ONE as int, n) <= z0
            * vstd::arithmetic::power::pow(factor as int, n),
    decreases n,
{
    let zc = ZOOM_ONE as int;
    let f = factor as int;
    if n == 0 {
        vstd::arithmetic::power::lemma_pow0(zc);
        vstd::arithmetic::power::lemma_pow0(f);
    } else {
        let m = (n - 1) as nat;
        let zp = zoom_after(z0, factor, m);
        let zn = zoom_after(z0, factor, n);
        lemma_zoom_below_ideal(z0, factor, m);
        lemma_zoom_monotone(z0, factor, m);
        vstd::arithmetic::power::lemma_pow_positive(zc, m);
        vstd::arithmetic::power::lemma_pow_positive(f, m);
        let pz = vstd::arithmetic::power::pow(zc, m);
        let pf = vstd::arithmetic::power::pow(f, m);
        // One step loses at most the truncated remainder: `zn * unit`
        // stays below the untruncated product.
        vstd::arithmetic::div_mod::lemma_fundamental_div_mod(zp * f, zc);
        vstd::arithmetic::div_mod::lemma_mod_division_less_than_divisor(zp * f, zc);
        assert(zn * zc <= zp * f) by (nonlinear_arith)
            requires
                zn == (zp * f) / zc,
                zp * f == zc * ((zp * f) / zc) + (zp * f) % zc,
                (zp * f) % zc >= 0,
        ;
        vstd::arithmetic::power::lemma_pow1(zc);
        vstd::arithmetic::power::lemma_pow1(f);
        vstd::arithmetic::power::lemma_pow_adds(zc, 1, m);
        vstd::arithmetic::power::lemma_pow_adds(f, 1, m);
        assert(vstd::arithmetic::power::pow(zc, n) == zc * pz);
        assert(vstd::arithmetic::power::pow(f, n) == f * pf);
        assert(zn * (zc * pz) == (zn * zc) * pz) by (nonlinear_arith);
        vstd::arithmetic::mul::lemma_mul_inequality(zn * zc, zp * f, pz);
        assert((zp * f) * pz == (zp * pz) * f) by (nonlinear_arith);
        vstd::arithmetic::mul::lemma_mul_inequality(zp * pz, z0 * pf, f);
        assert((z0 * pf) * f == z0 * (f * pf)) by (nonlinear_arith);
    }
}

/// The zoom after an earlier frame never exceeds the zoom after a later one.
pub proof fn lemma_zoom_ordered(z0: u64, factor: u64, i: nat, j: nat)
    requires
        z0 >= ZOOM_ONE,
        factor >= ZOOM_ONE,
        i <= j,
    ensures
        zoom_after(z0, factor, i) <= zoom_after(z0, factor, j),
    decreases j,
{
    if i < j {
        lemma_zoom_ordered(z0, factor, i, (j - 1) as nat);
        lemma_zoom_monotone(z0, factor, (j - 1) as nat);
    }
}

} // verus!

use vstd::prelude::*;

use crate::ConfigError;

verus! {

/// Fixed-point unit for complex-plane coordinates: one is `2^32`.
pub const FX_ONE: u64 = 4294967296;

/// The squared-magnitude escape bound, `4` in fixed point: iteration stops
/// once `|z|^2` exceeds it.
pub const ESCAPE_THRESHOLD: u64 = 17179869184;

pub open spec fn fx_abs(a: int) -> int {
    if a >= 0 {
        a
    } else {
        -a
    }
}

/// `a^2` in fixed point, truncated below the `2^-32` unit.
pub open spec fn fx_sq(a: int) -> int {
    fx_abs(a) * fx_abs(a) / (FX_ONE as int)
}

/// `2ab` in fixed point, magnitude truncated toward zero.
pub open spec fn fx_cross(a: int, b: int) -> int {
    let m = 2 * fx_abs(a) * fx_abs(b) / (FX_ONE as int);
    if (a < 0) != (b < 0) {
        -m
    } else {
        m
    }
}

/// Real part of one escape iteration `z <- z^2 + c`.
pub open spec fn step_re(zr: int, zi: int, cr: int) -> int {
    fx_sq(zr) - fx_sq(zi) + cr
}

/// Imaginary part of one escape iteration `z <- z^2 + c`.
pub open spec fn step_im(zr: int, zi: int, ci: int) -> int {
    fx_cross(zr, zi) + ci
}

/// Number of completed iterations of `z <- z^2 + c` from state `(zr, zi)`
/// before `|z|^2` exceeds the escape bound, capped by the remaining fuel.
pub open spec fn esc_count(cr: int, ci: int, zr: int, zi: int, fuel: nat) -> nat
    decreases fuel,
{
    if fuel == 0 {
        0
    } else if fx_sq(zr) + fx_sq(zi) > ESCAPE_THRESHOLD {
        0
    } else {
        1 + esc_count(cr, ci, step_re(zr, zi, cr), step_im(zr, zi, ci), (fuel - 1) as nat)
    }
}

/// The iteration index at which the orbit of `c` escapes, or `max_iter` if
/// it never does within the budget.
pub open spec fn escape_iterations(cr: int, ci: int, max_iter: nat) -> nat {
    esc_count(cr, ci, 0, 0, max_iter)
}

/// Magnitude of a fixed-point value.
fn iabs(a: i64) -> (r: u64)
    ensures
        r == fx_abs(a as int),
{
    if a >= 0 {
        a as u64
    } else {
        (-(a as i128)) as u64
    }
}

/// The stateless escape-time generator: bounded iteration `z <- z^2 + c`
/// over fixed-point coordinates, returning the iteration index at which
/// `|z|^2` first exceeds four, or `max_iter` if it never escapes. Callable
/// per pixel; allocates nothing.
pub fn escape_time(cr: i64, ci: i64, max_iter: u32) -> (r: u32)
    requires
        fx_abs(cr as int) <= 2 * FX_ONE,
        fx_abs(ci as int) <= 2 * FX_ONE,
    ensures
        r == escape_iterations(cr as int, ci as int, max_iter as nat),
        r <= max_iter,
{
    let mut zr: i64 = 0;
    let mut zi: i64 = 0;
    let mut i: u32 = 0;
    while i < max_iter
        invariant
            i <= max_iter,
            fx_abs(cr as int) <= 2 * FX_ONE,
            fx_abs(ci as int) <= 2 * FX_ONE,
            fx_abs(zr as int) <= 6 * FX_ONE + 2,
            fx_abs(zi as int) <= 6 * FX_ONE + 2,
            escape_iterations(cr as int, ci as int, max_iter as nat) == i + esc_count(
                cr as int,
                ci as int,
                zr as int,
                zi as int,
                (max_iter - i) as nat,
            ),
        decreases max_iter - i,
    {
        let ar = iabs(zr);
        let ai = iabs(zi);
        proof {
            crate::lemma_u64_mul_fits(ar, ar);
            crate::lemma_u64_mul_fits(ai, ai);
            vstd::arithmetic::div_mod::lemma_div_is_ordered(
                (ar as int) * (ar as int),
                u128::MAX as int,
                FX_ONE as int,
            );
            vstd::arithmetic::div_mod::lemma_div_is_ordered(
                (ai as int) * (ai as int),
                u128::MAX as int,
                FX_ONE as int,
            );
        }
        let sq_r: u128 = (ar as u128 * ar as u128) / (FX_ONE as u128);
        let sq_i: u128 = (ai as u128 * ai as u128) / (FX_ONE as u128);
        assert(sq_r == fx_sq(zr as int) && sq_i == fx_sq(zi as int));
        if sq_r + sq_i > ESCAPE_THRESHOLD as u128 {
            assert(esc_count(cr as int, ci as int, zr as int, zi as int, (max_iter - i) as nat)
                == 0);
            return i;
        }
        proof {
            // `2|zr||zi| <= |zr|^2 + |zi|^2`, and each square lies within
            // one fixed-point unit above its truncated value, so the
            // truncated cross term stays within the escape bound plus one.
            let s = FX_ONE as int;
            let aa = (ar as int) * (ar as int);
            let bb = (ai as int) * (ai as int);
            let ab = (ar as int) * (ai as int);
            let k = sq_r as int + sq_i as int + 2;
            assert(sq_r as int == aa / s && sq_i as int == bb / s);
            vstd::arithmetic::div_mod::lemma_fundamental_div_mod(aa, s);
            vstd::arithmetic::div_mod::lemma_fundamental_div_mod(bb, s);
            vstd::arithmetic::div_mod::lemma_mod_division_less_than_divisor(aa, s);
            vstd::arithmetic::div_mod::lemma_mod_division_less_than_divisor(bb, s);
            assert(s * (sq_r as int + 1) + s * (sq_i as int + 1) == s * k) by (nonlinear_arith)
                requires
                    k == sq_r as int + sq_i as int + 2,
            ;
            assert(aa + bb < s * k);
            assert(2 * ab <= aa + bb) by (nonlinear_arith)
                requires
                    aa == (ar as int) * (ar as int),
                    bb == (ai as int) * (ai as int),
                    ab == (ar as int) * (ai as int),
            ;
            vstd::arithmetic::div_mod::lemma_div_is_ordered(2 * ab, s * k - 1, s);
            assert((s * k - 1) / s == k - 1) by {
                assert((k - 1) * s + (s - 1) == s * k - 1) by (nonlinear_arith);
                vstd::arithmetic::div_mod::lemma_hoist_over_denominator(s - 1, k - 1, s as nat);
                vstd::arithmetic::div_mod::lemma_basic_div(s - 1, s);
            }
            assert((2 * ab) / s <= sq_r as int + sq_i as int + 1);
        }
        let cross: u128 = (2 * (ar as u128 * ai as u128)) / (FX_ONE as u128);
        assert(cross <= sq_r + sq_i + 1);
        let new_zr = sq_r as i64 - sq_i as i64 + cr;
        let neg = (zr < 0) != (zi < 0);
        let new_zi = if neg {
            -(cross as i64) + ci
        } else {
            cross as i64 + ci
        };
        proof {
            assert(2 * fx_abs(zr as int) * fx_abs(zi as int) == 2 * ((ar as int) * (ai as int)))
                by (nonlinear_arith)
                requires
                    fx_abs(zr as int) == ar as int,
                    fx_abs(zi as int) == ai as int,
            ;
        }
        assert(new_zr as int == step_re(zr as int, zi as int, cr as int));
        assert(new_zi as int == step_im(zr as int, zi as int, ci as int));
        proof {
            assert(esc_count(cr as int, ci as int, zr as int, zi as int, (max_iter - i) as nat)
                == 1 + esc_count(
                cr as int,
                ci as int,
                new_zr as int,
                new_zi as int,
                (max_iter - i - 1) as nat,
            ));
        }
        zr = new_zr;
        zi = new_zi;
        i = i + 1;
    }
    i
}

/// The square window of the complex plane mapped onto the image for one
/// frame: side `span`, centered at `(center_re, center_im)`, in fixed point.
#[derive(Clone, Copy, PartialEq, Eq, Structural, Debug)]
pub struct EscapeView {
    pub center_re: i64,
    pub center_im: i64,
    pub span: u64,
}

impl EscapeView {
    /// The window stays within the disc where the escape iteration is
    /// evaluated: every mapped coordinate has magnitude at most two.
    pub open spec fn wf(self) -> bool {
        &&& 1 <= self.span
        &&& fx_abs(self.center_re as int) + self.span / 2 <= 2 * FX_ONE
        &&& fx_abs(self.center_im as int) + self.span / 2 <= 2 * FX_ONE
    }

    /// The view of `center +- (base_span/zoom)/2`, refused when the zoom is
    /// below one or the zoom-one window leaves the two-disc.
    pub fn from_zoom(center_re: i64, center_im: i64, base_span: u64, zoom_num: u64) -> (r: Result<
        EscapeView,
        ConfigError,
    >)
        ensures
            r.is_ok() <==> {
                &&& zoom_num >= crate::viewport::ZOOM_ONE
                &&& 1 <= base_span * (FX_ONE as int) / (zoom_num as int)
                &&& fx_abs(center_re as int) + base_span / 2 <= 2 * FX_ONE
                &&& fx_abs(center_im as int) + base_span / 2 <= 2 * FX_ONE
            },
            r.is_ok() ==> ({
                let v = r.unwrap();
                &&& v.wf()
                &&& v.center_re == center_re
                &&& v.center_im == center_im
                &&& v.span == base_span * (FX_ONE as int) / (zoom_num as int)
            }),
            !r.is_ok() ==> r == Result::<EscapeView, ConfigError>::Err(ConfigError::BadViewport),
    {
        if zoom_num < crate::viewport::ZOOM_ONE {
            return Err(ConfigError::BadViewport);
        }
        proof {
            crate::lemma_u64_mul_fits(base_span, FX_ONE);
        }
        let span_wide: u128 = (base_span as u128 * FX_ONE as u128) / (zoom_num as u128);
        proof {
            // Dividing by a zoom of at least one never grows the span.
            vstd::arithmetic::div_mod::lemma_div_is_ordered_by_denominator(
                base_span as int * FX_ONE as int,
                FX_ONE as int,
                zoom_num as int,
            );
            vstd::arithmetic::div_mod::lemma_div_multiples_vanish(
                base_span as int,
                FX_ONE as int,
            );
            assert(base_span as int * FX_ONE as int == FX_ONE as int * base_span as int)
                by (nonlinear_arith);
        }
        let span = span_wide as u64;
        if span < 1 {
            return Err(ConfigError::BadViewport);
        }
        let m_re = iabs(center_re);
        let m_im = iabs(center_im);
        if m_re > 2 * FX_ONE || 2 * FX_ONE - m_re < base_span / 2 {
            proof {
                vstd::arithmetic::div_mod::lemma_div_is_ordered(
                    span as int,
                    base_span as int,
                    2,
                );
            }
            return Err(ConfigError::BadViewport);
        }
        if m_im > 2 * FX_ONE || 2 * FX_ONE - m_im < base_span / 2 {
            return Err(ConfigError::BadViewport);
        }
        proof {
            vstd::arithmetic::div_mod::lemma_div_is_ordered(span as int, base_span as int, 2);
        }
        Ok(EscapeView { center_re, center_im, span })
    }
}

/// Decides whether a zoom-one escape view window lies inside the two-disc.
pub fn check_escape_window(center_re: i64, center_im: i64, base_span: u64) -> (r: bool)
    ensures
        r <==> {
            &&& 1 <= base_span
            &&& fx_abs(center_re as int) + base_span / 2 <= 2 * FX_ONE
            &&& fx_abs(center_im as int) + base_span / 2 <= 2 * FX_ONE
        },
{
    if base_span < 1 {
        return false;
    }
    let m_re = iabs(center_re);
    let m_im = iabs(center_im);
    if m_re > 2 * FX_ONE || 2 * FX_ONE - m_re < base_span / 2 {
        return false;
    }
    if m_im > 2 * FX_ONE || 2 * FX_ONE - m_im < base_span / 2 {
        return false;
    }
    true
}

/// The fixed-point coordinate of pixel `p` on an axis of `extent` pixels
/// across a view axis `[center - span/2, center + span/2]`.
pub open spec fn map_axis_spec(center: int, span: u64, p: int, extent: int) -> int {
    center - span / 2 + p * span / extent
}

/// Maps a pixel index to its fixed-point world coordinate on one view axis.
/// The result always stays within the two-disc of a well-formed view.
pub fn map_axis(center: i64, span: u64, p: u64, extent: u64) -> (r: i64)
    requires
        1 <= span,
        fx_abs(center as int) + span / 2 <= 2 * FX_ONE,
        1 <= extent <= crate::viewport::MAX_EXTENT,
        p < extent,
    ensures
        r == map_axis_spec(center as int, span, p as int, extent as int),
        fx_abs(r as int) <= 2 * FX_ONE,
{
    proof {
        crate::lemma_u64_mul_fits(p, span);
    }
    let off_wide: u128 = (p as u128 * span as u128) / (extent as u128);
    proof {
        // `p * span < extent * span`, so the offset stays below `span`.
        assert((p as int) * (span as int) < (extent as int) * (span as int)) by (nonlinear_arith)
            requires
                (p as int) < (extent as int),
                span as int >= 1,
        ;
        vstd::arithmetic::div_mod::lemma_multiply_divide_lt(
            (p as int) * (span as int),
            extent as int,
            span as int,
        );
    }
    let off = off_wide as u64;
    assert(off <= span - 1);
    let base = center - (span / 2) as i64;
    let r = base + off as i64;
    assert(span as int - 1 - span as int / 2 <= span as int / 2) by {
        vstd::arithmetic::div_mod::lemma_fundamental_div_mod(span as int, 2);
        vstd::arithmetic::div_mod::lemma_mod_division_less_than_divisor(span as int, 2);
    }
    r
}

/// A fixed-point value from a signed fraction `num/den`, truncated toward
/// zero; magnitudes are capped at four.
pub fn fx_from_ratio(negative: bool, num: u64, den: u64) -> (r: i64)
    requires
        1 <= den,
        num <= 4 * den,
    ensures
        r == if negative {
            -(num * FX_ONE / (den as int))
        } else {
            num * FX_ONE / (den as int)
        },
{
    proof {
        crate::lemma_u64_mul_fits(num, FX_ONE);
        assert(num as int * FX_ONE as int <= 4 * den as int * FX_ONE as int)
            by (nonlinear_arith)
            requires
                num as int <= 4 * den as int,
                FX_ONE as int >= 0,
        ;
        vstd::arithmetic::div_mod::lemma_div_is_ordered(
            num as int * FX_ONE as int,
            4 * den as int * FX_ONE as int,
            den as int,
        );
        assert(4 * den as int * FX_ONE as int == den as int * (4 * FX_ONE as int))
            by (nonlinear_arith);
        vstd::arithmetic::div_mod::lemma_div_multiples_vanish(
            4 * FX_ONE as int,
            den as int,
        );
        vstd::arithmetic::div_mod::lemma_div_pos_is_pos(
            num as int * FX_ONE as int,
            den as int,
        );
    }
    let m: u128 = (num as u128 * FX_ONE as u128) / (den as u128);
    let v = m as i64;
    if negative {
        -v
    } else {
        v
    }
}

} // verus!

use vstd::prelude::*;

use crate::escape::{escape_iterations, escape_time, map_axis, map_axis_spec, EscapeView};
use crate::geometry::Square;
use crate::viewport::Viewport;
use rayon::iter::IntoParallelIterator;
use rayon::iter::ParallelIterator;

verus! {

/// A square projected into screen space: pixel bounds `[x1, x2) x [y1, y2)`,
/// with `x2`/`y2` capped one pixel past the image so that fill and border
/// tests agree with the uncapped projection on every visible pixel.
#[derive(Clone, Copy, PartialEq, Eq, Structural, Debug)]
pub struct ScreenRect {
    pub x1: usize,
    pub y1: usize,
    pub x2: usize,
    pub y2: usize,
}

/// Whether the world square, in grid units of `1/scale`, meets the viewport
/// rectangle (exact cross-multiplied comparison).
pub open spec fn sq_intersects(sq: Square, scale: int, vp: Viewport) -> bool {
    &&& sq.x * vp.den < (vp.x_num + vp.size_num) * scale
    &&& vp.x_num * scale < (sq.x + sq.side) * vp.den
    &&& sq.y * vp.den < (vp.y_num + vp.size_num) * scale
    &&& vp.y_num * scale < (sq.y + sq.side) * vp.den
}

/// The screen coordinate of world-axis coordinate `c/scale` under the
/// viewport axis `[vmin/vden, (vmin+vsize)/vden]` mapped onto `extent`
/// pixels: the floor of `(c/scale - vmin/vden) * extent / (vsize/vden)`,
/// clamped at zero for coordinates left of the viewport.
pub open spec fn screen_coord(
    c: int,
    scale: int,
    vmin: int,
    vsize: int,
    vden: int,
    extent: int,
) -> int {
    if c * vden <= vmin * scale {
        0
    } else {
        (c * vden - vmin * scale) * extent / (vsize * scale)
    }
}

pub open spec fn min_int(a: int, b: int) -> int {
    if a <= b {
        a
    } else {
        b
    }
}

/// Projects one axis bound. Returns the screen coordinate of `c/scale`,
/// capped at `extent + 1`.
fn project_coord(c: u64, scale: u64, vmin: u64, vsize: u64, vden: u64, extent: usize) -> (r:
    usize)
    requires
        1 <= scale <= 177147,
        c <= scale,
        vsize >= 1,
        vmin + vsize <= vden,
        vden <= 0x2000000000000000,
        1 <= extent <= 65535,
    ensures
        r == min_int(
            screen_coord(c as int, scale as int, vmin as int, vsize as int, vden as int,
                extent as int),
            extent as int + 1,
        ),
{
    proof {
        crate::lemma_u64_mul_fits(c, vden);
        crate::lemma_u64_mul_fits(vmin, scale);
    }
    let cv: u128 = c as u128 * vden as u128;
    let ms: u128 = vmin as u128 * scale as u128;
    if cv <= ms {
        return 0;
    }
    proof {
        assert(cv as int <= 0x2000000000000000 * 177147) by (nonlinear_arith)
            requires
                cv as int == (c as int) * (vden as int),
                c as int <= 177147,
                vden as int <= 0x2000000000000000,
                c >= 0,
                vden >= 0,
        ;
        crate::lemma_mul_bounds(vsize as int, scale as int, 0x2000000000000000int, 177147int);
        crate::lemma_mul_bounds(
            cv as int - ms as int,
            extent as int,
            0x2000000000000000int * 177147int,
            65535int,
        );
        assert(1 * 1 <= vsize as int * scale as int) by (nonlinear_arith)
            requires
                vsize as int >= 1,
                scale as int >= 1,
        ;
    }
    let num: u128 = (cv - ms) * extent as u128;
    let div: u128 = vsize as u128 * scale as u128;
    let q: u128 = num / div;
    if q > extent as u128 {
        extent + 1
    } else {
        q as usize
    }
}

/// Projects a world square into screen space, or `None` when it misses the
/// viewport. On intersection the left/top bounds land inside the image and
/// the right/bottom bounds are capped one pixel past it.
pub fn project_square(sq: &Square, scale: u64, vp: &Viewport, width: usize, height: usize) -> (r:
    Option<ScreenRect>)
    requires
        vp.wf(),
        1 <= scale <= 177147,
        sq.x + sq.side <= scale,
        sq.y + sq.side <= scale,
        1 <= width <= 65535,
        1 <= height <= 65535,
    ensures
        r.is_some() <==> sq_intersects(*sq, scale as int, *vp),
        r.is_some() ==> ({
            let rect = r.unwrap();
            &&& rect.x1 == screen_coord(sq.x as int, scale as int, vp.x_num as int,
                vp.size_num as int, vp.den as int, width as int)
            &&& rect.x2 == min_int(
                screen_coord((sq.x + sq.side) as int, scale as int, vp.x_num as int,
                    vp.size_num as int, vp.den as int, width as int),
                width as int + 1,
            )
            &&& rect.y1 == screen_coord(sq.y as int, scale as int, vp.y_num as int,
                vp.size_num as int, vp.den as int, height as int)
            &&& rect.y2 == min_int(
                screen_coord((sq.y + sq.side) as int, scale as int, vp.y_num as int,
                    vp.size_num as int, vp.den as int, height as int),
                height as int + 1,
            )
            &&& rect.x1 <= 65535 && rect.x2 <= 65536 && rect.y1 <= 65535 && rect.y2 <= 65536
        }),
{
    proof {
        let big = u64::MAX as int;
        crate::lemma_mul_bounds(sq.x as int, vp.den as int, big, big);
        crate::lemma_mul_bounds(sq.x as int + sq.side as int, vp.den as int, big, big);
        crate::lemma_mul_bounds(sq.y as int, vp.den as int, big, big);
        crate::lemma_mul_bounds(sq.y as int + sq.side as int, vp.den as int, big, big);
        crate::lemma_mul_bounds(vp.x_num as int + vp.size_num as int, scale as int, big, big);
        crate::lemma_mul_bounds(vp.y_num as int + vp.size_num as int, scale as int, big, big);
        crate::lemma_mul_bounds(vp.x_num as int, scale as int, big, big);
        crate::lemma_mul_bounds(vp.y_num as int, scale as int, big, big);
    }
    let q = vp.den as u128;
    let ax: u128 = sq.x as u128 * q;
    let bx: u128 = (sq.x + sq.side) as u128 * q;
    let ay: u128 = sq.y as u128 * q;
    let by: u128 = (sq.y + sq.side) as u128 * q;
    let x_hi: u128 = (vp.x_num + vp.size_num) as u128 * scale as u128;
    let x_lo: u128 = vp.x_num as u128 * scale as u128;
    let y_hi: u128 = (vp.y_num + vp.size_num) as u128 * scale as u128;
    let y_lo: u128 = vp.y_num as u128 * scale as u128;
    if !(ax < x_hi && x_lo < bx && ay < y_hi && y_lo < by) {
        return None;
    }
    let x1 = project_coord(sq.x, scale, vp.x_num, vp.size_num, vp.den, width);
    let x2 = project_coord(sq.x + sq.side, scale, vp.x_num, vp.size_num, vp.den, width);
    let y1 = project_coord(sq.y, scale, vp.y_num, vp.size_num, vp.den, height);
    let y2 = project_coord(sq.y + sq.side, scale, vp.y_num, vp.size_num, vp.den, height);
    proof {
        lemma_screen_coord_bounded(
            sq.x as int,
            scale as int,
            vp.x_num as int,
            vp.size_num as int,
            vp.den as int,
            width as int,
        );
        lemma_screen_coord_bounded(
            sq.y as int,
            scale as int,
            vp.y_num as int,
            vp.size_num as int,
            vp.den as int,
            height as int,
        );
    }
    Some(ScreenRect { x1, y1, x2, y2 })
}

/// The screen rectangle a world square projects to.
pub open spec fn projected(sq: Square, scale: int, vp: Viewport, w: int, h: int) -> ScreenRect {
    ScreenRect {
        x1: screen_coord(sq.x as int, scale, vp.x_num as int, vp.size_num as int, vp.den as int,
            w) as usize,
        y1: screen_coord(sq.y as int, scale, vp.y_num as int, vp.size_num as int, vp.den as int,
            h) as usize,
        x2: min_int(
            screen_coord((sq.x + sq.side) as int, scale, vp.x_num as int, vp.size_num as int,
                vp.den as int, w),
            w + 1,
        ) as usize,
        y2: min_int(
            screen_coord((sq.y + sq.side) as int, scale, vp.y_num as int, vp.size_num as int,
                vp.den as int, h),
            h + 1,
        ) as usize,
    }
}

/// The screen rectangles of the squares that meet the viewport, in the
/// squares' own order.
pub open spec fn rect_list(
    squares: Seq<Square>,
    scale: int,
    vp: Viewport,
    w: int,
    h: int,
) -> Seq<ScreenRect>
    decreases squares.len(),
{
    if squares.len() == 0 {
        Seq::empty()
    } else {
        let rest = rect_list(squares.drop_last(), scale, vp, w, h);
        if sq_intersects(squares.last(), scale, vp) {
            rest.push(projected(squares.last(), scale, vp, w, h))
        } else {
            rest
        }
    }
}

/// A world coordinate strictly left of the viewport's right edge projects
/// strictly inside the image.
proof fn lemma_screen_coord_bounded(
    c: int,
    scale: int,
    vmin: int,
    vsize: int,
    vden: int,
    extent: int,
)
    requires
        c * vden < (vmin + vsize) * scale,
        1 <= scale,
        1 <= vsize,
        1 <= extent,
        0 <= c,
        0 <= vmin,
        1 <= vden,
    ensures
        screen_coord(c, scale, vmin, vsize, vden, extent) < extent,
{
    if c * vden <= vmin * scale {
    } else {
        let diff = c * vden - vmin * scale;
        assert((vmin + vsize) * scale == vmin * scale + vsize * scale) by (nonlinear_arith);
        assert(diff < vsize * scale);
        vstd::arithmetic::mul::lemma_mul_strict_inequality(diff, vsize * scale, extent);
        assert(diff * extent < (vsize * scale) * extent);
        vstd::arithmetic::div_mod::lemma_multiply_divide_lt(diff * extent, vsize * scale, extent);
    }
}

/// The screen rectangle covers pixel `(x, y)`.
pub open spec fn rect_covers(r: ScreenRect, x: int, y: int) -> bool {
    r.x1 <= x < r.x2 && r.y1 <= y < r.y2
}

/// Pixel `(x, y)` lies on the one-pixel border ring of the rectangle.
pub open spec fn rect_border(r: ScreenRect, x: int, y: int) -> bool {
    x == r.x1 || x == r.x2 - 1 || y == r.y1 || y == r.y2 - 1
}

/// The palette index of pixel `(x, y)` after drawing `rects` in order over
/// a `bg` background: the last rectangle covering the pixel wins, and its
/// border ring overwrites its fill.
pub open spec fn cantor_pixel(
    rects: Seq<ScreenRect>,
    x: int,
    y: int,
    bg: u8,
    fill: u8,
    border: u8,
) -> u8
    decreases rects.len(),
{
    if rects.len() == 0 {
        bg
    } else if rect_covers(rects.last(), x, y) {
        if rect_border(rects.last(), x, y) {
            border
        } else {
            fill
        }
    } else {
        cantor_pixel(rects.drop_last(), x, y, bg, fill, border)
    }
}

/// A rasterizable Cantor frame: projected rectangles drawn over a
/// background, as palette indices.
pub struct CantorScene {
    pub rects: Vec<ScreenRect>,
    pub width: usize,
    pub height: usize,
    pub bg: u8,
    pub fill: u8,
    pub border: u8,
    pub palette_len: usize,
}

impl CantorScene {
    pub open spec fn wf(self) -> bool {
        &&& 1 <= self.width <= 65535
        &&& 1 <= self.height <= 65535
        &&& self.palette_len <= 256
        &&& (self.bg as int) < self.palette_len
        &&& (self.fill as int) < self.palette_len
        &&& (self.border as int) < self.palette_len
    }
}

/// A rasterizable escape-time frame: each pixel maps to a complex
/// coordinate whose escape iteration count indexes the palette.
pub struct EscapeScene {
    pub view: EscapeView,
    pub width: usize,
    pub height: usize,
    pub max_iter: u32,
    pub palette_len: usize,
}

impl EscapeScene {
    pub open spec fn wf(self) -> bool {
        &&& 1 <= self.width <= 65535
        &&& 1 <= self.height <= 65535
        &&& 1 <= self.palette_len <= 256
        &&& self.view.wf()
    }
}

pub open spec fn escape_pixel(s: EscapeScene, x: int, y: int) -> u8 {
    (escape_iterations(
        map_axis_spec(s.view.center_re as int, s.view.span, x, s.width as int),
        map_axis_spec(s.view.center_im as int, s.view.span, y, s.height as int),
        s.max_iter as nat,
    ) as int % (s.palette_len as int)) as u8
}

/// One frame's full rasterization input, in either algorithmic mode.
pub enum Scene {
    Cantor(CantorScene),
    Escape(EscapeScene),
}

impl Scene {
    pub open spec fn wf(self) -> bool {
        match self {
            Scene::Cantor(c) => c.wf(),
            Scene::Escape(e) => e.wf(),
        }
    }

    pub open spec fn width(self) -> int {
        match self {
            Scene::Cantor(c) => c.width as int,
            Scene::Escape(e) => e.width as int,
        }
    }

    pub open spec fn height(self) -> int {
        match self {
            Scene::Cantor(c) => c.height as int,
            Scene::Escape(e) => e.height as int,
        }
    }

    pub open spec fn palette_len(self) -> int {
        match self {
            Scene::Cantor(c) => c.palette_len as int,
            Scene::Escape(e) => e.palette_len as int,
        }
    }

    /// The palette index of pixel `(x, y)` of the frame.
    pub open spec fn pixel(self, x: int, y: int) -> u8 {
        match self {
            Scene::Cantor(c) => cantor_pixel(c.rects@, x, y, c.bg, c.fill, c.border),
            Scene::Escape(e) => escape_pixel(e, x, y),
        }
    }

    pub fn get_width(&self) -> (r: usize)
        ensures
            r == self.width(),
    {
        match self {
            Scene::Cantor(c) => c.width,
            Scene::Escape(e) => e.width,
        }
    }

    pub fn get_height(&self) -> (r: usize)
        ensures
            r == self.height(),
    {
        match self {
            Scene::Cantor(c) => c.height,
            Scene::Escape(e) => e.height,
        }
    }
}

/// The bytes of pixel column `x`, top to bottom.
pub open spec fn column_spec(s: Scene, x: int) -> Seq<u8> {
    Seq::new(s.height() as nat, |y: int| s.pixel(x, y))
}

/// The bytes of the whole frame in row-major order: pixel `(x, y)` stands
/// at index `y * width + x`.
pub open spec fn frame_spec(s: Scene) -> Seq<u8> {
    Seq::new((s.width() * s.height()) as nat, |i: int| s.pixel(i % s.width(), i / s.width()))
}

/// Every pixel the rasterizer produces is a valid palette index: the Cantor
/// mode writes only the three scene indices, and the escape mode reduces
/// iteration counts modulo the palette size.
pub proof fn lemma_pixel_bounded(s: Scene, x: int, y: int)
    requires
        s.wf(),
    ensures
        (s.pixel(x, y) as int) < s.palette_len(),
{
    match s {
        Scene::Cantor(c) => {
            lemma_cantor_pixel_cases(c.rects@, x, y, c.bg, c.fill, c.border);
        },
        Scene::Escape(e) => {
            vstd::arithmetic::div_mod::lemma_mod_division_less_than_divisor(
                escape_iterations(
                    map_axis_spec(e.view.center_re as int, e.view.span, x, e.width as int),
                    map_axis_spec(e.view.center_im as int, e.view.span, y, e.height as int),
                    e.max_iter as nat,
                ) as int,
                e.palette_len as int,
            );
        },
    }
}

/// A drawn pixel is always the background, the fill, or the border index.
pub proof fn lemma_cantor_pixel_cases(
    rects: Seq<ScreenRect>,
    x: int,
    y: int,
    bg: u8,
    fill: u8,
    border: u8,
)
    ensures
        cantor_pixel(rects, x, y, bg, fill, border) == bg || cantor_pixel(
            rects,
            x,
            y,
            bg,
            fill,
            border,
        ) == fill || cantor_pixel(rects, x, y, bg, fill, border) == border,
    decreases rects.len(),
{
    if rects.len() > 0 && !rect_covers(rects.last(), x, y) {
        lemma_cantor_pixel_cases(rects.drop_last(), x, y, bg, fill, border);
    }
}

/// Renders one pixel column of a Cantor frame: background first, then each
/// rectangle in order, fill before border.
fn render_cantor_column(sc: &CantorScene, x: usize) -> (r: Vec<u8>)
    requires
        sc.wf(),
        x < sc.width,
    ensures
        r@.len() == sc.height,
        forall|y: int|
            0 <= y < sc.height ==> r@[y] == cantor_pixel(
                sc.rects@,
                x as int,
                y,
                sc.bg,
                sc.fill,
                sc.border,
            ),
{
    let h = sc.height;
    let mut line: Vec<u8> = Vec::new();
    while line.len() < h
        invariant
            line@.len() <= h,
            forall|y: int| 0 <= y < line@.len() ==> line@[y] == sc.bg,
        decreases h - line@.len(),
    {
        line.push(sc.bg);
    }
    proof {
        assert(sc.rects@.take(0) =~= Seq::<ScreenRect>::empty());
    }
    let n = sc.rects.len();
    let mut k: usize = 0;
    while k < n
        invariant
            k <= n,
            n == sc.rects@.len(),
            line@.len() == h,
            h == sc.height,
            x < sc.width,
            forall|y: int|
                0 <= y < h ==> line@[y] == cantor_pixel(
                    sc.rects@.take(k as int),
                    x as int,
                    y,
                    sc.bg,
                    sc.fill,
                    sc.border,
                ),
        decreases n - k,
    {
        let r = sc.rects[k];
        proof {
            assert(sc.rects@.take(k as int + 1).drop_last() =~= sc.rects@.take(k as int));
            assert(sc.rects@.take(k as int + 1).last() == r);
        }
        if r.x1 <= x && x < r.x2 {
            let y_end = if r.y2 < h {
                r.y2
            } else {
                h
            };
            let mut y = r.y1;
            while y < y_end
                invariant
                    r.y1 <= y,
                    y <= y_end || y == r.y1,
                    y_end == min_int(r.y2 as int, h as int),
                    line@.len() == h,
                    r.x1 <= x < r.x2,
                    forall|yy: int|
                        0 <= yy < h && !(r.y1 <= yy < y) ==> line@[yy] == cantor_pixel(
                            sc.rects@.take(k as int),
                            x as int,
                            yy,
                            sc.bg,
                            sc.fill,
                            sc.border,
                        ),
                    forall|yy: int|
                        r.y1 <= yy < y && yy < h ==> line@[yy] == (if rect_border(
                            r,
                            x as int,
                            yy,
                        ) {
                            sc.border
                        } else {
                            sc.fill
                        }),
                decreases y_end - y,
            {
                let v = if x == r.x1 || x == r.x2 - 1 || y == r.y1 || y == r.y2 - 1 {
                    sc.border
                } else {
                    sc.fill
                };
                line.set(y, v);
                y = y + 1;
            }
            proof {
                assert forall|yy: int| 0 <= yy < h implies line@[yy] == cantor_pixel(
                    sc.rects@.take(k as int + 1),
                    x as int,
                    yy,
                    sc.bg,
                    sc.fill,
                    sc.border,
                ) by {
                    if rect_covers(r, x as int, yy) {
                        assert(r.y1 <= yy < y);
                    }
                }
            }
        } else {
            proof {
                assert forall|yy: int| 0 <= yy < h implies line@[yy] == cantor_pixel(
                    sc.rects@.take(k as int + 1),
                    x as int,
                    yy,
                    sc.bg,
                    sc.fill,
                    sc.border,
                ) by {
                    assert(!rect_covers(r, x as int, yy));
                }
            }
        }
        k = k + 1;
    }
    proof {
        assert(sc.rects@.take(n as int) =~= sc.rects@);
    }
    line
}

/// Renders one pixel column of an escape-time frame. No state is shared
/// between pixels; the column coordinate is evaluated once.
fn render_escape_column(sc: &EscapeScene, x: usize) -> (r: Vec<u8>)
    requires
        sc.wf(),
        x < sc.width,
    ensures
        r@.len() == sc.height,
        forall|y: int| 0 <= y < sc.height ==> r@[y] == escape_pixel(*sc, x as int, y),
{
    let h = sc.height;
    let cr = map_axis(sc.view.center_re, sc.view.span, x as u64, sc.width as u64);
    let mut line: Vec<u8> = Vec::new();
    let mut y: usize = 0;
    while y < h
        invariant
            y <= h,
            h == sc.height,
            sc.wf(),
            x < sc.width,
            cr as int == map_axis_spec(
                sc.view.center_re as int,
                sc.view.span,
                x as int,
                sc.width as int,
            ),
            crate::escape::fx_abs(cr as int) <= 2 * crate::escape::FX_ONE,
            line@.len() == y,
            forall|yy: int| 0 <= yy < y ==> line@[yy] == escape_pixel(*sc, x as int, yy),
        decreases h - y,
    {
        let ci = map_axis(sc.view.center_im, sc.view.span, y as u64, sc.height as u64);
        let iters = escape_time(cr, ci, sc.max_iter);
        proof {
            vstd::arithmetic::div_mod::lemma_mod_division_less_than_divisor(
                iters as int,
                sc.palette_len as int,
            );
        }
        let idx = (iters as usize % sc.palette_len) as u8;
        line.push(idx);
        y = y + 1;
    }
    line
}

/// Renders one pixel column of a frame in either mode.
pub fn render_column(s: &Scene, x: usize) -> (r: Vec<u8>)
    requires
        s.wf(),
        x < s.width(),
    ensures
        r@ == column_spec(*s, x as int),
{
    let col = match s {
        Scene::Cantor(c) => render_cantor_column(c, x),
        Scene::Escape(e) => render_escape_column(e, x),
    };
    proof {
        assert(col@ =~= column_spec(*s, x as int));
    }
    col
}

/// Computes all pixel columns concurrently, one task per column, each into
/// its own private buffer.
///
/// Relies on rayon: `into_par_iter().map(..).collect()` over a range is an
/// indexed parallel iterator, so the collected vector keeps index order
/// regardless of task completion order; each element is the result of the
/// verified `render_column` for its own index.
#[verifier::external_body]
fn compute_columns_parallel(s: &Scene, width: usize) -> (cols: Vec<Vec<u8>>)
    requires
        s.wf(),
        width == s.width(),
    ensures
        cols@.len() == width,
        forall|x: int| 0 <= x < width ==> #[trigger] cols@[x]@ == column_spec(*s, x),
{
    (0..width).into_par_iter().map(|x| render_column(s, x)).collect()
}

/// Computes all pixel columns in sequence, in column order.
fn compute_columns_sequential(s: &Scene, width: usize) -> (cols: Vec<Vec<u8>>)
    requires
        s.wf(),
        width == s.width(),
    ensures
        cols@.len() == width,
        forall|x: int| 0 <= x < width ==> #[trigger] cols@[x]@ == column_spec(*s, x),
{
    let mut cols: Vec<Vec<u8>> = Vec::new();
    let mut x: usize = 0;
    while x < width
        invariant
            x <= width,
            width == s.width(),
            s.wf(),
            cols@.len() == x,
            forall|xx: int| 0 <= xx < x ==> #[trigger] cols@[xx]@ == column_spec(*s, xx),
        decreases width - x,
    {
        cols.push(render_column(s, x));
        x = x + 1;
    }
    cols
}

/// Merges per-column buffers into one contiguous row-major frame, in
/// original column order regardless of how the columns were produced.
fn merge_columns(cols: &Vec<Vec<u8>>, width: usize, height: usize) -> (out: Vec<u8>)
    requires
        1 <= width <= 65535,
        1 <= height <= 65535,
        cols@.len() == width,
        forall|x: int| 0 <= x < width ==> (#[trigger] cols@[x])@.len() == height,
    ensures
        out@.len() == width * height,
        forall|i: int| 0 <= i < width * height ==> #[trigger] out@[i] == cols@[i % (width as int)]@[i / (width as int)],
{
    let mut out: Vec<u8> = Vec::new();
    let mut y: usize = 0;
    proof {
        crate::lemma_mul_bounds(width as int, height as int, 65535, 65535);
    }
    while y < height
        invariant
            y <= height,
            1 <= width <= 65535,
            1 <= height <= 65535,
            cols@.len() == width,
            forall|x: int| 0 <= x < width ==> (#[trigger] cols@[x])@.len() == height,
            out@.len() == y * width,
            forall|i: int|
                0 <= i < y * width ==> #[trigger] out@[i] == cols@[i % (width as int)]@[i / (
                width as int)],
        decreases height - y,
    {
        let mut x: usize = 0;
        proof {
            crate::lemma_mul_bounds(y as int, width as int, 65534, 65535);
            assert((y + 1) * width == y * width + width) by (nonlinear_arith);
        }
        while x < width
            invariant
                x <= width,
                y < height,
                1 <= width <= 65535,
                1 <= height <= 65535,
                cols@.len() == width,
                forall|xx: int| 0 <= xx < width ==> (#[trigger] cols@[xx])@.len() == height,
                out@.len() == y * width + x,
                y * width + width <= 65535 * 65535,
                forall|i: int|
                    0 <= i < y * width + x ==> #[trigger] out@[i] == cols@[i % (width as int)]@[i
                        / (width as int)],
            decreases width - x,
        {
            let v = cols[x][y];
            out.push(v);
            proof {
                vstd::arithmetic::div_mod::lemma_fundamental_div_mod_converse(
                    (y * width + x) as int,
                    width as int,
                    y as int,
                    x as int,
                );
            }
            x = x + 1;
        }
        y = y + 1;
        proof {
            assert(y * width == (y - 1) * width + width) by (nonlinear_arith);
        }
    }
    proof {
        assert(height * width == width * height) by (nonlinear_arith);
        assert forall|i: int| 0 <= i < width * height implies #[trigger] out@[i] == cols@[i % (
        width as int)]@[i / (width as int)] by {}
    }
    out
}

/// Ties the merged buffer to the per-pixel frame description.
proof fn lemma_merge_is_frame(s: Scene, out: Seq<u8>)
    requires
        s.wf(),
        out.len() == s.width() * s.height(),
        forall|i: int|
            0 <= i < out.len() ==> #[trigger] out[i] == column_spec(s, i % s.width())[i
                / s.width()],
    ensures
        out == frame_spec(s),
{
    assert forall|i: int| 0 <= i < out.len() implies out[i] == frame_spec(s)[i] by {
        let w = s.width();
        vstd::arithmetic::div_mod::lemma_mod_division_less_than_divisor(i, w);
        vstd::arithmetic::div_mod::lemma_fundamental_div_mod(i, w);
        vstd::arithmetic::div_mod::lemma_multiply_divide_lt(i, w, s.height());
        assert(0 <= i / w < s.height());
        assert(column_spec(s, i % w)[i / w] == s.pixel(i % w, i / w));
    }
    assert(out =~= frame_spec(s));
}

/// Renders a full frame single-threadedly: columns in order, then a merge.
/// The output is exactly `frame_spec`, byte for byte.
pub fn render_frame(s: &Scene) -> (r: Vec<u8>)
    requires
        s.wf(),
    ensures
        r@ == frame_spec(*s),
        r@.len() == s.width() * s.height(),
{
    let width = s.get_width();
    let height = s.get_height();
    let cols = compute_columns_sequential(s, width);
    let out = merge_columns(&cols, width, height);
    proof {
        assert forall|i: int| 0 <= i < out@.len() implies #[trigger] out@[i] == column_spec(
            *s,
            i % s.width(),
        )[i / s.width()] by {
            vstd::arithmetic::div_mod::lemma_mod_division_less_than_divisor(i, s.width());
        }
        lemma_merge_is_frame(*s, out@);
    }
    out
}

/// Renders a full frame with one concurrent task per column, merged in
/// column order. The output is exactly `frame_spec`, byte for byte — the
/// same bytes the single-threaded `render_frame` produces on the same
/// scene, whatever the task schedule.
pub fn render_frame_parallel(s: &Scene) -> (r: Vec<u8>)
    requires
        s.wf(),
    ensures
        r@ == frame_spec(*s),
        r@.len() == s.width() * s.height(),
{
    let width = s.get_width();
    let height = s.get_height();
    let cols = compute_columns_parallel(s, width);
    let out = merge_columns(&cols, width, height);
    proof {
        assert forall|i: int| 0 <= i < out@.len() implies #[trigger] out@[i] == column_spec(
            *s,
            i % s.width(),
        )[i / s.width()] by {
            vstd::arithmetic::div_mod::lemma_mod_division_less_than_divisor(i, s.width());
        }
        lemma_merge_is_frame(*s, out@);
    }
    out
}

/// A raster buffer of fixed dimensions: `width * height * channels` bytes
/// in row-major order, one byte per channel. One channel holds palette
/// indices; three hold RGB triples.
#[derive(Debug)]
pub struct FrameBuffer {
    pub data: Vec<u8>,
    pub width: usize,
    pub height: usize,
    pub channels: usize,
}

impl FrameBuffer {
    pub open spec fn wf(self) -> bool {
        &&& self.data@.len() == self.width * self.height * self.channels
        &&& 1 <= self.width <= 65535
        &&& 1 <= self.height <= 65535
        &&& (self.channels == 1 || self.channels == 3)
        &&& self.width * self.height * self.channels <= 0xFFFFFFFF
    }

    /// A buffer of the given dimensions with every byte zero.
    pub fn new(width: usize, height: usize, channels: usize) -> (r: FrameBuffer)
        requires
            1 <= width <= 65535,
            1 <= height <= 65535,
            channels == 1 || channels == 3,
            width * height * channels <= 0xFFFFFFFF,
        ensures
            r.wf(),
            r.width == width && r.height == height && r.channels == channels,
            forall|i: int| 0 <= i < r.data@.len() ==> r.data@[i] == 0,
    {
        proof {
            crate::lemma_mul_bounds(width as int, height as int, 65535, 65535);
            crate::lemma_mul_bounds(width as int * height as int, channels as int,
                65535int * 65535int, 3int);
        }
        let n = width * height * channels;
        let mut data: Vec<u8> = Vec::new();
        while data.len() < n
            invariant
                data@.len() <= n,
                forall|i: int| 0 <= i < data@.len() ==> data@[i] == 0,
            decreases n - data@.len(),
        {
            data.push(0);
        }
        FrameBuffer { data, width, height, channels }
    }

    /// Overwrites the three channels of pixel `(x, y)` of an RGB buffer;
    /// out-of-bounds coordinates change nothing.
    pub fn draw_at(&mut self, x: usize, y: usize, rgb: (u8, u8, u8))
        requires
            old(self).wf(),
            old(self).channels == 3,
        ensures
            final(self).wf(),
            final(self).width == old(self).width && final(self).height == old(self).height
                && final(self).channels == 3,
            x < old(self).width && y < old(self).height ==> ({
                let pos = (y * old(self).width + x) * 3;
                &&& final(self).data@ == old(self).data@.update(pos as int, rgb.0).update(
                    pos + 1,
                    rgb.1,
                ).update(pos + 2, rgb.2)
            }),
            !(x < old(self).width && y < old(self).height) ==> final(self).data@ == old(
                self,
            ).data@,
    {
        if x < self.width && y < self.height {
            proof {
                crate::lemma_mul_bounds(y as int, self.width as int, 65534, 65535);
                crate::lemma_mul_bounds(
                    y as int * self.width as int + x as int,
                    3,
                    65535int * 65535int - 1,
                    3,
                );
                assert((y * self.width + x) * 3 + 2 < self.width * self.height * 3)
                    by (nonlinear_arith)
                    requires
                        x < self.width,
                        y < self.height,
                        0 <= x,
                        0 <= y,
                ;
            }
            let pos = (y * self.width + x) * 3;
            self.data.set(pos, rgb.0);
            self.data.set(pos + 1, rgb.1);
            self.data.set(pos + 2, rgb.2);
        }
    }

    /// Resets every byte to zero, keeping the dimensions.
    pub fn clear(&mut self)
        requires
            old(self).wf(),
        ensures
            final(self).wf(),
            final(self).width == old(self).width && final(self).height == old(self).height
                && final(self).channels == old(self).channels,
            final(self).data@.len() == old(self).data@.len(),
            forall|i: int| 0 <= i < final(self).data@.len() ==> final(self).data@[i] == 0,
    {
        let n = self.data.len();
        let mut i: usize = 0;
        while i < n
            invariant
                i <= n,
                n == self.data@.len(),
                self.width == old(self).width,
                self.height == old(self).height,
                self.channels == old(self).channels,
                self.data@.len() == old(self).data@.len(),
                old(self).wf(),
                forall|j: int| 0 <= j < i ==> self.data@[j] == 0,
            decreases n - i,
        {
            self.data.set(i, 0);
            i = i + 1;
        }
    }
}

/// Renders a full frame into an indexed one-channel buffer, using one
/// concurrent task per column.
pub fn render_frame_buffer(s: &Scene) -> (r: FrameBuffer)
    requires
        s.wf(),
    ensures
        r.wf(),
        r.width == s.width() && r.height == s.height() && r.channels == 1,
        r.data@ == frame_spec(*s),
{
    let width = s.get_width();
    let height = s.get_height();
    let data = render_frame_parallel(s);
    proof {
        crate::lemma_mul_bounds(s.width(), s.height(), 65535, 65535);
    }
    FrameBuffer { data, width, height, channels: 1 }
}

/// Every byte of a rendered frame indexes within the scene's palette.
pub proof fn lemma_frame_bytes_bounded(s: Scene)
    requires
        s.wf(),
    ensures
        forall|i: int|
            0 <= i < frame_spec(s).len() ==> (#[trigger] frame_spec(s)[i] as int)
                < s.palette_len(),
{
    assert forall|i: int| 0 <= i < frame_spec(s).len() implies (#[trigger] frame_spec(s)[i]
        as int) < s.palette_len() by {
        lemma_pixel_bounded(s, i % s.width(), i / s.width());
    }
}

} // verus!

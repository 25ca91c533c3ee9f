use vstd::prelude::*;

use crate::geometry::{fractal_set, subdivide_squares, Square};
use crate::palette::Rgb;
use crate::raster::FrameBuffer;
use crate::viewport::ZOOM_ONE;
use crate::{ConfigError, MAX_DEPTH};

verus! {

/// The color of pixel `(px, py)` in a row-major RGB byte grid of width `w`.
pub open spec fn pixel_rgb(data: Seq<u8>, w: int, px: int, py: int) -> Rgb {
    Rgb {
        r: data[(py * w + px) * 3],
        g: data[(py * w + px) * 3 + 1],
        b: data[(py * w + px) * 3 + 2],
    }
}

/// Pixel `(px, py)` lies in the half-open pixel rectangle at `(x, y)` with
/// side `size`.
pub open spec fn in_rect(x: int, y: int, size: int, px: int, py: int) -> bool {
    x <= px < x + size && y <= py < y + size
}

/// Pixel `(px, py)` lies in some square of the list.
pub open spec fn covered_by(squares: Seq<Square>, px: int, py: int) -> bool {
    exists|k: int|
        0 <= k < squares.len() && in_rect(
            #[trigger] squares[k].x as int,
            squares[k].y as int,
            squares[k].side as int,
            px,
            py,
        )
}

/// Distinct pixels of one grid own distinct index triples.
proof fn lemma_pixel_index_unique(w: int, px1: int, py1: int, px2: int, py2: int)
    requires
        0 <= px1 < w,
        0 <= px2 < w,
        0 <= py1,
        0 <= py2,
        !(px1 == px2 && py1 == py2),
    ensures
        py1 * w + px1 != py2 * w + px2,
{
    if py1 * w + px1 == py2 * w + px2 {
        vstd::arithmetic::div_mod::lemma_fundamental_div_mod_converse(
            py1 * w + px1,
            w,
            py1,
            px1,
        );
        vstd::arithmetic::div_mod::lemma_fundamental_div_mod_converse(
            py2 * w + px2,
            w,
            py2,
            px2,
        );
    }
}

/// Byte indices of distinct pixels never collide, whatever the channel.
proof fn lemma_byte_index_unique(p1: int, c1: int, p2: int, c2: int)
    requires
        0 <= c1 < 3,
        0 <= c2 < 3,
        p1 != p2,
    ensures
        p1 * 3 + c1 != p2 * 3 + c2,
{
    if p1 * 3 + c1 == p2 * 3 + c2 {
        vstd::arithmetic::div_mod::lemma_fundamental_div_mod_converse(p1 * 3 + c1, 3, p1, c1);
        vstd::arithmetic::div_mod::lemma_fundamental_div_mod_converse(p2 * 3 + c2, 3, p2, c2);
    }
}

/// Fills the pixel square at `(x, y)` with side `size`, clipped to the
/// buffer bounds; every other pixel keeps its color.
pub fn draw_filled_rectangle(fb: &mut FrameBuffer, x: u64, y: u64, size: u64, color: Rgb)
    requires
        old(fb).wf(),
        old(fb).channels == 3,
        x + size <= 0xFFFFFFFF,
        y + size <= 0xFFFFFFFF,
    ensures
        final(fb).wf(),
        final(fb).width == old(fb).width && final(fb).height == old(fb).height && final(fb).channels == 3,
        forall|px: int, py: int|
            0 <= px < final(fb).width && 0 <= py < final(fb).height ==> #[trigger] pixel_rgb(
                final(fb).data@,
                final(fb).width as int,
                px,
                py,
            ) == (if in_rect(x as int, y as int, size as int, px, py) {
                color
            } else {
                pixel_rgb(old(fb).data@, final(fb).width as int, px, py)
            }),
{
    let w = fb.width;
    let h = fb.height;
    let mut i: u64 = 0;
    while i < size
        invariant
            i <= size,
            x + size <= 0xFFFFFFFF,
            y + size <= 0xFFFFFFFF,
            fb.wf(),
            fb.channels == 3,
            w == fb.width,
            h == fb.height,
            fb.width == old(fb).width && fb.height == old(fb).height,
            forall|px: int, py: int|
                0 <= px < fb.width && 0 <= py < fb.height ==> #[trigger] pixel_rgb(
                    fb.data@,
                    fb.width as int,
                    px,
                    py,
                ) == (if in_rect(x as int, y as int, size as int, px, py) && px < x + i {
                    color
                } else {
                    pixel_rgb(old(fb).data@, fb.width as int, px, py)
                }),
        decreases size - i,
    {
        let px_col = x + i;
        let mut j: u64 = 0;
        while j < size
            invariant
                j <= size,
                i < size,
                px_col == x + i,
                x + size <= 0xFFFFFFFF,
                y + size <= 0xFFFFFFFF,
                fb.wf(),
                fb.channels == 3,
                w == fb.width,
                h == fb.height,
                fb.width == old(fb).width && fb.height == old(fb).height,
                forall|px: int, py: int|
                    0 <= px < fb.width && 0 <= py < fb.height ==> #[trigger] pixel_rgb(
                        fb.data@,
                        fb.width as int,
                        px,
                        py,
                    ) == (if in_rect(x as int, y as int, size as int, px, py) && (px < x + i || (
                    px == x + i && py < y + j)) {
                        color
                    } else {
                        pixel_rgb(old(fb).data@, fb.width as int, px, py)
                    }),
            decreases size - j,
        {
            let py_row = y + j;
            if px_col < w as u64 && py_row < h as u64 {
                let ghost before = fb.data@;
                fb.draw_at(px_col as usize, py_row as usize, (color.r, color.g, color.b));
                proof {
                    let wi = fb.width as int;
                    let hi = fb.height as int;
                    let tx = px_col as int;
                    let ty = py_row as int;
                    assert((ty * wi + tx) * 3 + 2 < wi * hi * 3 && 0 <= ty * wi + tx)
                        by (nonlinear_arith)
                        requires
                            0 <= tx < wi,
                            0 <= ty < hi,
                    ;
                    assert(fb.data@.len() == wi * hi * 3);
                    assert forall|px: int, py: int|
                        0 <= px < fb.width && 0 <= py < fb.height && !(px == tx && py == ty)
                        implies pixel_rgb(fb.data@, wi, px, py) == pixel_rgb(
                        before,
                        wi,
                        px,
                        py,
                    ) by {
                        assert((py * wi + px) * 3 + 2 < wi * hi * 3 && 0 <= py * wi + px)
                            by (nonlinear_arith)
                            requires
                                0 <= px < wi,
                                0 <= py < hi,
                        ;
                        lemma_pixel_index_unique(wi, px, py, tx, ty);
                        lemma_byte_index_unique(py * wi + px, 0, ty * wi + tx, 0);
                        lemma_byte_index_unique(py * wi + px, 1, ty * wi + tx, 0);
                        lemma_byte_index_unique(py * wi + px, 2, ty * wi + tx, 0);
                        lemma_byte_index_unique(py * wi + px, 0, ty * wi + tx, 1);
                        lemma_byte_index_unique(py * wi + px, 1, ty * wi + tx, 1);
                        lemma_byte_index_unique(py * wi + px, 2, ty * wi + tx, 1);
                        lemma_byte_index_unique(py * wi + px, 0, ty * wi + tx, 2);
                        lemma_byte_index_unique(py * wi + px, 1, ty * wi + tx, 2);
                        lemma_byte_index_unique(py * wi + px, 2, ty * wi + tx, 2);
                    }
                    assert(pixel_rgb(fb.data@, wi, tx, ty) == color);
                    assert(tx == x + i && ty == y + j);
                    assert(in_rect(x as int, y as int, size as int, tx, ty));
                    assert forall|px: int, py: int|
                        0 <= px < fb.width && 0 <= py < fb.height implies #[trigger] pixel_rgb(
                        fb.data@,
                        fb.width as int,
                        px,
                        py,
                    ) == (if in_rect(x as int, y as int, size as int, px, py) && (px < x + i || (
                    px == x + i && py < y + j + 1)) {
                        color
                    } else {
                        pixel_rgb(old(fb).data@, fb.width as int, px, py)
                    }) by {
                        if px == tx && py == ty {
                            assert(pixel_rgb(fb.data@, fb.width as int, px, py) == color);
                        } else {
                            assert(pixel_rgb(fb.data@, wi, px, py) == pixel_rgb(
                                before,
                                wi,
                                px,
                                py,
                            ));
                            assert(pixel_rgb(before, wi, px, py) == (if in_rect(
                                x as int,
                                y as int,
                                size as int,
                                px,
                                py,
                            ) && (px < x + i || (px == x + i && py < y + j)) {
                                color
                            } else {
                                pixel_rgb(old(fb).data@, wi, px, py)
                            }));
                        }
                    }
                }
            }
            j = j + 1;
        }
        i = i + 1;
    }
}

/// Draws the complete Cantor-dust square set rooted at pixel `(x, y)` with
/// side `size`, by an explicit work list rather than by recursion: every
/// pixel inside a leaf square takes `color`, every other pixel keeps its
/// own.
pub fn draw_cantor_square(fb: &mut FrameBuffer, x: u64, y: u64, size: u64, iterations: u32, color: Rgb)
    requires
        old(fb).wf(),
        old(fb).channels == 3,
        iterations <= MAX_DEPTH,
        x + size <= 0xFFFFFFFF,
        y + size <= 0xFFFFFFFF,
    ensures
        final(fb).wf(),
        final(fb).width == old(fb).width && final(fb).height == old(fb).height && final(fb).channels == 3,
        forall|px: int, py: int|
            0 <= px < final(fb).width && 0 <= py < final(fb).height ==> #[trigger] pixel_rgb(
                final(fb).data@,
                final(fb).width as int,
                px,
                py,
            ) == (if covered_by(
                fractal_set(Square { x, y, side: size }, iterations as nat),
                px,
                py,
            ) {
                color
            } else {
                pixel_rgb(old(fb).data@, final(fb).width as int, px, py)
            }),
{
    let root = Square { x, y, side: size };
    let squares = subdivide_squares(root, iterations);
    let ghost all = fractal_set(root, iterations as nat);
    let n = squares.len();
    let mut k: usize = 0;
    while k < n
        invariant
            k <= n,
            n == squares@.len(),
            squares@ == all,
            root == (Square { x, y, side: size }),
            crate::geometry::all_in_box(squares@, root),
            x + size <= 0xFFFFFFFF,
            y + size <= 0xFFFFFFFF,
            fb.wf(),
            fb.channels == 3,
            fb.width == old(fb).width && fb.height == old(fb).height,
            forall|px: int, py: int|
                0 <= px < fb.width && 0 <= py < fb.height ==> #[trigger] pixel_rgb(
                    fb.data@,
                    fb.width as int,
                    px,
                    py,
                ) == (if covered_by(all.take(k as int), px, py) {
                    color
                } else {
                    pixel_rgb(old(fb).data@, fb.width as int, px, py)
                }),
        decreases n - k,
    {
        let sq = squares[k];
        assert(crate::geometry::in_box(sq, root));
        assert(sq.x + sq.side <= 0xFFFFFFFF && sq.y + sq.side <= 0xFFFFFFFF);
        draw_filled_rectangle(fb, sq.x, sq.y, sq.side, color);
        proof {
            assert forall|px: int, py: int| 0 <= px < fb.width && 0 <= py < fb.height
                implies #[trigger] pixel_rgb(fb.data@, fb.width as int, px, py) == (
            if covered_by(all.take(k as int + 1), px, py) {
                color
            } else {
                pixel_rgb(old(fb).data@, fb.width as int, px, py)
            }) by {
                if in_rect(sq.x as int, sq.y as int, sq.side as int, px, py) {
                    assert(all.take(k as int + 1)[k as int] == sq);
                    assert(covered_by(all.take(k as int + 1), px, py));
                } else {
                    if covered_by(all.take(k as int), px, py) {
                        let w = choose|m: int|
                            0 <= m < all.take(k as int).len() && in_rect(
                                #[trigger] all.take(k as int)[m].x as int,
                                all.take(k as int)[m].y as int,
                                all.take(k as int)[m].side as int,
                                px,
                                py,
                            );
                        assert(all.take(k as int + 1)[w] == all.take(k as int)[w]);
                        assert(covered_by(all.take(k as int + 1), px, py));
                    } else if covered_by(all.take(k as int + 1), px, py) {
                        let m = choose|m: int|
                            0 <= m < all.take(k as int + 1).len() && in_rect(
                                #[trigger] all.take(k as int + 1)[m].x as int,
                                all.take(k as int + 1)[m].y as int,
                                all.take(k as int + 1)[m].side as int,
                                px,
                                py,
                            );
                        if m < k {
                            assert(all.take(k as int)[m] == all.take(k as int + 1)[m]);
                            assert(covered_by(all.take(k as int), px, py));
                        }
                    }
                }
            }
        }
        k = k + 1;
    }
    proof {
        assert(all.take(n as int) =~= all);
    }
}

/// Resamples a zoomed view anchored at the origin, the documented default
/// focal point: output pixel `(px, py)` takes the color of source pixel
/// `(px/zoom, py/zoom)`, with the zoom in fixed point and flooring.
pub fn zoom_resample(src: &FrameBuffer, zoom_num: u64) -> (r: FrameBuffer)
    requires
        src.wf(),
        src.channels == 3,
        zoom_num >= ZOOM_ONE,
    ensures
        r.wf(),
        r.width == src.width && r.height == src.height && r.channels == 3,
        forall|px: int, py: int|
            0 <= px < r.width && 0 <= py < r.height ==> #[trigger] pixel_rgb(
                r.data@,
                r.width as int,
                px,
                py,
            ) == pixel_rgb(
                src.data@,
                src.width as int,
                px * ZOOM_ONE / (zoom_num as int),
                py * ZOOM_ONE / (zoom_num as int),
            ),
{
    let w = src.width;
    let h = src.height;
    let mut data: Vec<u8> = Vec::new();
    let mut py: usize = 0;
    proof {
        crate::lemma_mul_bounds(w as int, h as int, 65535, 65535);
    }
    while py < h
        invariant
            py <= h,
            src.wf(),
            src.channels == 3,
            zoom_num >= ZOOM_ONE,
            w == src.width,
            h == src.height,
            data@.len() == 3 * (py * w),
            forall|qx: int, qy: int|
                0 <= qx < w && 0 <= qy < py ==> #[trigger] pixel_rgb(data@, w as int, qx, qy)
                    == pixel_rgb(
                    src.data@,
                    w as int,
                    qx * ZOOM_ONE / (zoom_num as int),
                    qy * ZOOM_ONE / (zoom_num as int),
                ),
        decreases h - py,
    {
        let mut px: usize = 0;
        proof {
            crate::lemma_mul_bounds(py as int, w as int, 65534, 65535);
            assert((py + 1) * w == py * w + w) by (nonlinear_arith);
        }
        while px < w
            invariant
                px <= w,
                py < h,
                src.wf(),
                src.channels == 3,
                zoom_num >= ZOOM_ONE,
                w == src.width,
                h == src.height,
                py * w + w <= 65535 * 65535,
                data@.len() == 3 * (py * w + px),
                forall|qx: int, qy: int|
                    0 <= qx < w && 0 <= qy < py ==> #[trigger] pixel_rgb(data@, w as int, qx, qy)
                        == pixel_rgb(
                        src.data@,
                        w as int,
                        qx * ZOOM_ONE / (zoom_num as int),
                        qy * ZOOM_ONE / (zoom_num as int),
                    ),
                forall|qx: int|
                    0 <= qx < px ==> #[trigger] pixel_rgb(data@, w as int, qx, py as int)
                        == pixel_rgb(
                        src.data@,
                        w as int,
                        qx * ZOOM_ONE / (zoom_num as int),
                        py as int * ZOOM_ONE / (zoom_num as int),
                    ),
            decreases w - px,
        {
            proof {
                crate::lemma_u64_mul_fits(px as u64, ZOOM_ONE);
                crate::lemma_u64_mul_fits(py as u64, ZOOM_ONE);
            }
            let sx_wide: u128 = (px as u128 * ZOOM_ONE as u128) / (zoom_num as u128);
            let sy_wide: u128 = (py as u128 * ZOOM_ONE as u128) / (zoom_num as u128);
            proof {
                lemma_div_shrinks(px as int, zoom_num);
                lemma_div_shrinks(py as int, zoom_num);
            }
            let sx = sx_wide as usize;
            let sy = sy_wide as usize;
            proof {
                crate::lemma_mul_bounds(sy as int, w as int, 65534, 65535);
                crate::lemma_mul_bounds(sy as int * w as int + sx, 3int, 65535int * 65535int
                    - 1, 3int);
                assert((sy * w + sx) * 3 + 2 < w * h * 3) by (nonlinear_arith)
                    requires
                        0 <= sx < w,
                        0 <= sy < h,
                ;
            }
            let base = (sy * w + sx) * 3;
            let b0 = src.data[base];
            let b1 = src.data[base + 1];
            let b2 = src.data[base + 2];
            let ghost data0 = data@;
            data.push(b0);
            data.push(b1);
            data.push(b2);
            proof {
                assert(3 * (py * w + px) + 3 == 3 * (py * w + px + 1)) by (nonlinear_arith);
                let wi = w as int;
                let i0 = 3 * (py as int * wi + px as int);
                assert(data0.len() == i0);
                assert(data@[i0] == b0 && data@[i0 + 1] == b1 && data@[i0 + 2] == b2);
                assert(sx as int == px as int * ZOOM_ONE / (zoom_num as int));
                assert(sy as int == py as int * ZOOM_ONE / (zoom_num as int));
                assert(b0 == src.data@[(sy as int * wi + sx as int) * 3] && b1 == src.data@[(
                sy as int * wi + sx as int) * 3 + 1] && b2 == src.data@[(sy as int * wi
                    + sx as int) * 3 + 2]);
                assert forall|qx: int|
                    0 <= qx < px + 1 implies #[trigger] pixel_rgb(data@, wi, qx, py as int)
                    == pixel_rgb(
                    src.data@,
                    wi,
                    qx * ZOOM_ONE / (zoom_num as int),
                    py as int * ZOOM_ONE / (zoom_num as int),
                ) by {
                    if qx == px {
                        assert((py as int * wi + qx) * 3 == i0);
                        assert(pixel_rgb(data@, wi, qx, py as int) == Rgb {
                            r: b0,
                            g: b1,
                            b: b2,
                        });
                        assert(pixel_rgb(
                            src.data@,
                            wi,
                            qx * ZOOM_ONE / (zoom_num as int),
                            py as int * ZOOM_ONE / (zoom_num as int),
                        ) == Rgb { r: b0, g: b1, b: b2 });
                    } else {
                        assert((py as int * wi + qx) * 3 + 2 < i0) by (nonlinear_arith)
                            requires
                                i0 == 3 * (py as int * wi + px as int),
                                0 <= qx < px as int,
                                0 <= py as int,
                                0 <= wi,
                        ;
                        assert(pixel_rgb(data@, wi, qx, py as int) == pixel_rgb(
                            data0,
                            wi,
                            qx,
                            py as int,
                        ));
                    }
                }
                assert forall|qx: int, qy: int|
                    0 <= qx < w && 0 <= qy < py implies #[trigger] pixel_rgb(data@, wi, qx, qy)
                        == pixel_rgb(
                        src.data@,
                        wi,
                        qx * ZOOM_ONE / (zoom_num as int),
                        qy * ZOOM_ONE / (zoom_num as int),
                    ) by {
                    assert((qy * wi + qx) * 3 + 2 < i0) by (nonlinear_arith)
                        requires
                            i0 == 3 * (py as int * wi + px as int),
                            0 <= qx < wi,
                            0 <= qy < py as int,
                            0 <= px as int,
                    ;
                    assert(pixel_rgb(data@, wi, qx, qy) == pixel_rgb(data0, wi, qx, qy));
                    assert(pixel_rgb(data0, wi, qx, qy) == pixel_rgb(
                        src.data@,
                        wi,
                        qx * ZOOM_ONE / (zoom_num as int),
                        qy * ZOOM_ONE / (zoom_num as int),
                    ));
                }
            }
            px = px + 1;
        }
        proof {
            assert(3 * (py * w + w) == 3 * ((py + 1) * w)) by (nonlinear_arith);
        }
        py = py + 1;
    }
    proof {
        assert(3 * (h * w) == w * h * 3) by (nonlinear_arith);
    }
    FrameBuffer { data, width: w, height: h, channels: 3 }
}

/// The color every still render starts from.
pub open spec fn white() -> Rgb {
    Rgb { r: 255, g: 255, b: 255 }
}

/// A still raster snapshot: the Cantor-dust set at the given depth drawn
/// in `color` over a white background, one RGB triple per pixel. The
/// dimensions and the depth are validated before anything is allocated.
pub fn render_still(size: usize, iterations: u32, color: Rgb) -> (r: Result<
    FrameBuffer,
    ConfigError,
>)
    ensures
        r.is_ok() <==> (1 <= size <= 37837 && iterations <= MAX_DEPTH),
        size == 0 ==> r == Result::<FrameBuffer, ConfigError>::Err(ConfigError::EmptyImage),
        size > 37837 ==> r == Result::<FrameBuffer, ConfigError>::Err(ConfigError::ImageTooLarge),
        1 <= size <= 37837 && iterations > MAX_DEPTH ==> r == Result::<
            FrameBuffer,
            ConfigError,
        >::Err(ConfigError::DepthTooLarge),
        r.is_ok() ==> ({
            let fb = r.unwrap();
            &&& fb.wf()
            &&& fb.width == size && fb.height == size && fb.channels == 3
            &&& forall|px: int, py: int|
                0 <= px < size && 0 <= py < size ==> #[trigger] pixel_rgb(
                    fb.data@,
                    size as int,
                    px,
                    py,
                ) == (if covered_by(
                    fractal_set(Square { x: 0, y: 0, side: size as u64 }, iterations as nat),
                    px,
                    py,
                ) {
                    color
                } else {
                    white()
                })
        }),
{
    if size == 0 {
        return Err(ConfigError::EmptyImage);
    }
    if size > 37837 {
        return Err(ConfigError::ImageTooLarge);
    }
    if iterations > MAX_DEPTH {
        return Err(ConfigError::DepthTooLarge);
    }
    proof {
        assert(size * size * 3 <= 0xFFFFFFFF) by (nonlinear_arith)
            requires
                1 <= size <= 37837,
        ;
    }
    let mut fb = FrameBuffer::new(size, size, 3);
    draw_filled_rectangle(&mut fb, 0, 0, size as u64, Rgb { r: 255, g: 255, b: 255 });
    draw_cantor_square(&mut fb, 0, 0, size as u64, iterations, color);
    Ok(fb)
}

/// The zoomed interactive view: the full still render resampled from the
/// origin, the documented default focal point, by a fixed-point zoom.
/// Output pixel `(px, py)` shows the still image's pixel
/// `(px/zoom, py/zoom)`.
pub fn generate_cantor_image(size: usize, iterations: u32, zoom_num: u64, color: Rgb) -> (r:
    Result<FrameBuffer, ConfigError>)
    ensures
        r.is_ok() <==> (1 <= size <= 37837 && iterations <= MAX_DEPTH && zoom_num
            >= ZOOM_ONE),
        r.is_ok() ==> ({
            let fb = r.unwrap();
            &&& fb.wf()
            &&& fb.width == size && fb.height == size && fb.channels == 3
            &&& forall|px: int, py: int|
                0 <= px < size && 0 <= py < size ==> #[trigger] pixel_rgb(
                    fb.data@,
                    size as int,
                    px,
                    py,
                ) == (if covered_by(
                    fractal_set(Square { x: 0, y: 0, side: size as u64 }, iterations as nat),
                    px * ZOOM_ONE / (zoom_num as int),
                    py * ZOOM_ONE / (zoom_num as int),
                ) {
                    color
                } else {
                    white()
                })
        }),
{
    if zoom_num < ZOOM_ONE {
        return Err(crate::ConfigError::BadViewport);
    }
    let full = match render_still(size, iterations, color) {
        Ok(f) => f,
        Err(e) => {
            return Err(e);
        },
    };
    let out = zoom_resample(&full, zoom_num);
    proof {
        assert forall|px: int, py: int| 0 <= px < size && 0 <= py < size implies #[trigger]
        pixel_rgb(out.data@, size as int, px, py) == (if covered_by(
            fractal_set(Square { x: 0, y: 0, side: size as u64 }, iterations as nat),
            px * ZOOM_ONE / (zoom_num as int),
            py * ZOOM_ONE / (zoom_num as int),
        ) {
            color
        } else {
            white()
        }) by {
            lemma_div_shrinks(px, zoom_num);
            lemma_div_shrinks(py, zoom_num);
        }
    }
    Ok(out)
}

/// Flooring by a zoom of at least one never grows a pixel coordinate.
proof fn lemma_div_shrinks(p: int, zoom_num: u64)
    requires
        0 <= p,
        zoom_num >= ZOOM_ONE,
    ensures
        0 <= p * ZOOM_ONE / (zoom_num as int) <= p,
{
    vstd::arithmetic::div_mod::lemma_div_pos_is_pos(p * ZOOM_ONE, zoom_num as int);
    vstd::arithmetic::div_mod::lemma_div_is_ordered_by_denominator(
        p * ZOOM_ONE,
        ZOOM_ONE as int,
        zoom_num as int,
    );
    assert(p * ZOOM_ONE == ZOOM_ONE as int * p) by (nonlinear_arith);
    vstd::arithmetic::div_mod::lemma_div_multiples_vanish(p, ZOOM_ONE as int);
}

} // verus!

use vstd::prelude::*;

use crate::encoder::{AnimationEncoder, EncodeError};
use crate::escape::{fx_abs, EscapeView, FX_ONE};
use crate::geometry::{fractal_set, in_box, Square};
use crate::palette::{fixed_palette, gradient, Palette, Rgb};
use crate::raster::{
    cantor_pixel, escape_pixel, frame_spec, lemma_frame_bytes_bounded, render_frame_buffer,
    project_square, rect_list, CantorScene, EscapeScene, Scene, ScreenRect,
};
use crate::viewport::{
    advance_zoom, check_window, window_ok, zoom_after, ViewWindow, Viewport,
    DEFAULT_ZOOM_FACTOR, MAX_ZOOM_NUM, ZOOM_ONE,
};
use crate::{ConfigError, RenderError, MAX_DEPTH};
use rand::Rng;
use rand::SeedableRng;

verus! {

/// Ceiling on the number of frames of one batch run.
pub const MAX_FRAMES: u32 = 100000;

/// Which fractal the pipeline renders.
#[derive(Clone, Copy, PartialEq, Eq, Structural, Debug)]
pub enum FractalKind {
    /// Cantor-dust corner subdivision, drawn from the shared square set.
    Cantor,
    /// An escape-time fractal, evaluated per pixel in fixed point.
    Escape {
        /// Real part of the view center, in fixed point.
        center_re: i64,
        /// Imaginary part of the view center, in fixed point.
        center_im: i64,
        /// Side of the zoom-one view window, in fixed point.
        base_span: u64,
        /// Iteration budget per pixel.
        max_iter: u32,
        /// Size of the gradient palette, at most 256.
        palette_size: u16,
    },
}

/// Everything one animated render takes: all plain scalar inputs; the
/// pipeline itself parses and prompts nothing.
#[derive(Clone, Copy, PartialEq, Eq, Structural, Debug)]
pub struct AnimationConfig {
    /// The fractal to render.
    pub kind: FractalKind,
    /// Output width in pixels.
    pub width: u16,
    /// Output height in pixels.
    pub height: u16,
    /// Subdivision depth of the square set.
    pub depth: u32,
    /// Number of frames to render and append.
    pub frames: u32,
    /// Per-frame delay in milliseconds; stored in 10 ms ticks, truncating.
    pub delay_ms: u32,
    /// Zoom of the first frame, in fixed point (`ZOOM_ONE` is one).
    pub zoom_start: u64,
    /// Fixed multiplicative zoom step per frame, in fixed point.
    pub zoom_factor: u64,
    /// The world window the zoom closes in on.
    pub window: ViewWindow,
    /// Background color.
    pub bg: Rgb,
    /// Square fill color.
    pub fill: Rgb,
    /// Square border color, drawn after the fill.
    pub border: Rgb,
}

impl Default for AnimationConfig {
    /// The batch defaults: a 1600 x 1600, 90-frame zoom into the top-left
    /// third of a depth-11 square set, 1.05x per frame.
    fn default() -> (r: AnimationConfig)
        ensures
            r == default_animation_config(),
    {
        AnimationConfig {
            kind: FractalKind::Cantor,
            width: 1600,
            height: 1600,
            depth: MAX_DEPTH,
            frames: 90,
            delay_ms: 0,
            zoom_start: ZOOM_ONE,
            zoom_factor: DEFAULT_ZOOM_FACTOR,
            window: ViewWindow { cx_num: 1, cy_num: 1, base_num: 1, den: 3 },
            bg: Rgb { r: 0, g: 0, b: 0 },
            fill: Rgb { r: 50, g: 150, b: 255 },
            border: Rgb { r: 255, g: 255, b: 255 },
        }
    }
}

pub open spec fn default_animation_config() -> AnimationConfig {
    AnimationConfig {
        kind: FractalKind::Cantor,
        width: 1600,
        height: 1600,
        depth: MAX_DEPTH,
        frames: 90,
        delay_ms: 0,
        zoom_start: ZOOM_ONE,
        zoom_factor: DEFAULT_ZOOM_FACTOR,
        window: ViewWindow { cx_num: 1, cy_num: 1, base_num: 1, den: 3 },
        bg: Rgb { r: 0, g: 0, b: 0 },
        fill: Rgb { r: 50, g: 150, b: 255 },
        border: Rgb { r: 255, g: 255, b: 255 },
    }
}

/// The palette the configuration asks for is buildable.
pub open spec fn palette_size_ok(c: AnimationConfig) -> bool {
    match c.kind {
        FractalKind::Cantor => true,
        FractalKind::Escape { palette_size, .. } => 1 <= palette_size <= 256,
    }
}

/// The zoom-one view is acceptable for the chosen fractal: a Cantor window
/// inside the world square, or an escape view inside the two-disc.
pub open spec fn view_ok(c: AnimationConfig) -> bool {
    match c.kind {
        FractalKind::Cantor => window_ok(c.window),
        FractalKind::Escape { center_re, center_im, base_span, .. } => {
            &&& 1 <= base_span
            &&& fx_abs(center_re as int) + base_span / 2 <= 2 * FX_ONE
            &&& fx_abs(center_im as int) + base_span / 2 <= 2 * FX_ONE
        },
    }
}

/// An escape view keeps at least one fixed-point unit of span even at the
/// deepest zoom of the run.
pub open spec fn span_ok(c: AnimationConfig) -> bool {
    match c.kind {
        FractalKind::Cantor => true,
        FractalKind::Escape { base_span, .. } => 1 <= base_span * (FX_ONE as int) / zoom_after(
            c.zoom_start,
            c.zoom_factor,
            (c.frames - 1) as nat,
        ),
    }
}

/// A configuration passes the static checks made before any generation.
pub open spec fn config_ok(c: AnimationConfig) -> bool {
    &&& c.width >= 1
    &&& c.height >= 1
    &&& c.depth <= MAX_DEPTH
    &&& 1 <= c.frames <= MAX_FRAMES
    &&& c.delay_ms / 10 <= 65535
    &&& palette_size_ok(c)
    &&& view_ok(c)
    &&& span_ok(c)
    &&& c.zoom_start >= ZOOM_ONE
    &&& c.zoom_factor >= ZOOM_ONE
}

/// Every frame's zoom stays within the accepted fixed-point range.
pub open spec fn zoom_range_ok(c: AnimationConfig) -> bool {
    forall|j: nat|
        j < c.frames ==> ZOOM_ONE <= #[trigger] zoom_after(c.zoom_start, c.zoom_factor, j)
            <= MAX_ZOOM_NUM
}

/// Decides `zoom_range_ok` by walking the zoom sequence once.
fn check_zoom_range(z0: u64, factor: u64, frames: u32) -> (r: bool)
    requires
        z0 >= ZOOM_ONE,
        factor >= ZOOM_ONE,
        frames >= 1,
    ensures
        r <==> forall|j: nat|
            j < frames ==> ZOOM_ONE <= #[trigger] zoom_after(z0, factor, j) <= MAX_ZOOM_NUM,
{
    if z0 > MAX_ZOOM_NUM {
        assert(zoom_after(z0, factor, 0) == z0);
        return false;
    }
    let mut z = z0;
    let mut i: u32 = 0;
    while i + 1 < frames
        invariant
            i < frames,
            z0 >= ZOOM_ONE,
            factor >= ZOOM_ONE,
            z == zoom_after(z0, factor, i as nat),
            ZOOM_ONE <= z <= MAX_ZOOM_NUM,
            forall|j: nat|
                j <= i ==> ZOOM_ONE <= #[trigger] zoom_after(z0, factor, j) <= MAX_ZOOM_NUM,
        decreases frames - i,
    {
        proof {
            crate::viewport::lemma_zoom_monotone(z0, factor, i as nat);
        }
        let nz = match advance_zoom(z, factor) {
            Some(v) => v,
            None => {
                return false;
            },
        };
        if nz > MAX_ZOOM_NUM {
            return false;
        }
        z = nz;
        i = i + 1;
    }
    assert forall|j: nat| j < frames implies ZOOM_ONE <= #[trigger] zoom_after(z0, factor, j)
        <= MAX_ZOOM_NUM by {
        assert(j <= i);
    }
    true
}

/// The viewport a window maps to at a given zoom numerator.
pub open spec fn viewport_at(w: ViewWindow, zn: int) -> Viewport {
    Viewport {
        x_num: (2 * w.cx_num * zn - w.base_num * ZOOM_ONE) as u64,
        y_num: (2 * w.cy_num * zn - w.base_num * ZOOM_ONE) as u64,
        size_num: (2 * w.base_num * ZOOM_ONE) as u64,
        den: (2 * w.den * zn) as u64,
    }
}

/// The escape view of a zoom-one window at a given zoom numerator.
pub open spec fn escape_view_at(
    center_re: i64,
    center_im: i64,
    base_span: u64,
    zn: int,
) -> EscapeView {
    EscapeView { center_re, center_im, span: (base_span * FX_ONE / zn) as u64 }
}

/// The exact bytes of frame `i` of a run: the configured fractal rendered
/// through the frame's viewport, as palette indices in row-major order.
/// Cantor frames use indices 0 (background), 1 (fill) and 2 (border);
/// escape frames reduce iteration counts modulo the palette size.
pub open spec fn run_frame_bytes(c: AnimationConfig, i: nat) -> Seq<u8> {
    let w = c.width as int;
    let h = c.height as int;
    let zn = zoom_after(c.zoom_start, c.zoom_factor, i);
    match c.kind {
        FractalKind::Cantor => {
            let root = Square { x: 0, y: 0, side: crate::pow3(c.depth as nat) as u64 };
            let rects = rect_list(
                fractal_set(root, c.depth as nat),
                crate::pow3(c.depth as nat) as int,
                viewport_at(c.window, zn),
                w,
                h,
            );
            Seq::new((w * h) as nat, |idx: int| cantor_pixel(rects, idx % w, idx / w, 0, 1, 2))
        },
        FractalKind::Escape { center_re, center_im, base_span, max_iter, palette_size } => {
            let scene = EscapeScene {
                view: escape_view_at(center_re, center_im, base_span, zn),
                width: c.width as usize,
                height: c.height as usize,
                max_iter,
                palette_len: palette_size as usize,
            };
            Seq::new((w * h) as nat, |idx: int| escape_pixel(scene, idx % w, idx / w))
        },
    }
}

/// A scene assembled for frame `i` of a run rasterizes to exactly the
/// frame bytes the run's contract names.
proof fn lemma_scene_is_run_frame(c: AnimationConfig, i: nat, s: Scene)
    requires
        ({
            let zn = zoom_after(c.zoom_start, c.zoom_factor, i);
            match c.kind {
                FractalKind::Cantor => s matches Scene::Cantor(sc) && sc.width == c.width as usize
                    && sc.height == c.height as usize && sc.bg == 0 && sc.fill == 1 && sc.border
                    == 2 && sc.rects@ == rect_list(
                    fractal_set(
                        Square { x: 0, y: 0, side: crate::pow3(c.depth as nat) as u64 },
                        c.depth as nat,
                    ),
                    crate::pow3(c.depth as nat) as int,
                    viewport_at(c.window, zn),
                    c.width as int,
                    c.height as int,
                ),
                FractalKind::Escape { center_re, center_im, base_span, max_iter, palette_size }
                    => s == Scene::Escape(
                    EscapeScene {
                        view: escape_view_at(center_re, center_im, base_span, zn),
                        width: c.width as usize,
                        height: c.height as usize,
                        max_iter,
                        palette_len: palette_size as usize,
                    },
                ),
            }
        }),
    ensures
        frame_spec(s) == run_frame_bytes(c, i),
{
    let w = c.width as int;
    let h = c.height as int;
    assert(s.width() == w && s.height() == h);
    assert forall|idx: int| 0 <= idx < w * h implies frame_spec(s)[idx] == run_frame_bytes(
        c,
        i,
    )[idx] by {
        assert(frame_spec(s)[idx] == s.pixel(idx % w, idx / w));
    }
    assert(frame_spec(s) =~= run_frame_bytes(c, i));
}

/// The outcome of a completed animation run.
pub struct AnimationResult {
    /// The finalized container bytes.
    pub bytes: Vec<u8>,
    /// Frames appended and finalized, always the configured count.
    pub frames_written: u32,
    /// The fixed-point zoom the last frame was rendered at.
    pub final_zoom: u64,
    /// The abstract frame list of the container: per frame its pixel bytes
    /// and its delay in 10 ms ticks.
    pub frames: Ghost<Seq<(Seq<u8>, u16)>>,
}

/// Projects every square that meets the viewport, keeping order.
fn project_visible(
    squares: &Vec<Square>,
    scale: u64,
    vp: &Viewport,
    width: usize,
    height: usize,
) -> (r: Vec<ScreenRect>)
    requires
        vp.wf(),
        1 <= scale <= 177147,
        forall|k: int|
            0 <= k < squares@.len() ==> in_box(
                #[trigger] squares@[k],
                Square { x: 0, y: 0, side: scale },
            ),
        1 <= width <= 65535,
        1 <= height <= 65535,
    ensures
        r@ == rect_list(squares@, scale as int, *vp, width as int, height as int),
{
    let n = squares.len();
    let mut rects: Vec<ScreenRect> = Vec::new();
    let mut k: usize = 0;
    proof {
        assert(squares@.take(0) =~= Seq::<Square>::empty());
    }
    while k < n
        invariant
            k <= n,
            n == squares@.len(),
            vp.wf(),
            1 <= scale <= 177147,
            forall|j: int|
                0 <= j < squares@.len() ==> in_box(
                    #[trigger] squares@[j],
                    Square { x: 0, y: 0, side: scale },
                ),
            1 <= width <= 65535,
            1 <= height <= 65535,
            rects@ == rect_list(
                squares@.take(k as int),
                scale as int,
                *vp,
                width as int,
                height as int,
            ),
        decreases n - k,
    {
        let sq = squares[k];
        assert(in_box(sq, Square { x: 0, y: 0, side: scale }));
        proof {
            assert(squares@.take(k as int + 1).drop_last() =~= squares@.take(k as int));
            assert(squares@.take(k as int + 1).last() == sq);
        }
        match project_square(&sq, scale, vp, width, height) {
            Some(rect) => {
                proof {
                    assert(rect == crate::raster::projected(
                        sq,
                        scale as int,
                        *vp,
                        width as int,
                        height as int,
                    ));
                }
                rects.push(rect);
            },
            None => {},
        }
        k = k + 1;
    }
    proof {
        assert(squares@.take(n as int) =~= squares@);
    }
    rects
}

/// Runs the whole batch pipeline: builds the geometry once, then per
/// frame maps the viewport, rasterizes concurrently, and appends the
/// indexed frame; the container is finalized exactly once at the end. The
/// same pipeline serves both fractal kinds: Cantor frames draw the shared
/// square set, escape frames evaluate the per-pixel iteration.
///
/// Configuration faults are rejected before any generation begins, each
/// with its own error; after that, only a stream fault of the encoder can
/// end the run, which then aborts whole. On success the finalized
/// animation holds exactly the configured number of frames, and the last
/// frame was rendered at the zoom `zoom_start` advanced `frames - 1` times
/// by `zoom_factor`.
pub fn run_animation(config: &AnimationConfig) -> (r: Result<AnimationResult, RenderError>)
    ensures
        r == Result::<AnimationResult, RenderError>::Err(
            RenderError::Config(ConfigError::EmptyImage),
        ) <==> (config.width == 0 || config.height == 0),
        config.width >= 1 && config.height >= 1 ==> (r == Result::<
            AnimationResult,
            RenderError,
        >::Err(RenderError::Config(ConfigError::DepthTooLarge)) <==> config.depth > MAX_DEPTH),
        config.width >= 1 && config.height >= 1 && config.depth <= MAX_DEPTH ==> (r == Result::<
            AnimationResult,
            RenderError,
        >::Err(RenderError::Config(ConfigError::BadFrameCount)) <==> !(1 <= config.frames
            <= MAX_FRAMES)),
        config.width >= 1 && config.height >= 1 && config.depth <= MAX_DEPTH && 1 <= config.frames
            <= MAX_FRAMES ==> (r == Result::<AnimationResult, RenderError>::Err(
            RenderError::Config(ConfigError::BadDelay),
        ) <==> config.delay_ms / 10 > 65535),
        config.width >= 1 && config.height >= 1 && config.depth <= MAX_DEPTH && 1 <= config.frames
            <= MAX_FRAMES && config.delay_ms / 10 <= 65535 ==> (r == Result::<
            AnimationResult,
            RenderError,
        >::Err(RenderError::Config(ConfigError::BadPaletteSize)) <==> !palette_size_ok(*config)),
        config.width >= 1 && config.height >= 1 && config.depth <= MAX_DEPTH && 1 <= config.frames
            <= MAX_FRAMES && config.delay_ms / 10 <= 65535 && palette_size_ok(*config) ==> (r
            == Result::<AnimationResult, RenderError>::Err(
            RenderError::Config(ConfigError::BadViewport),
        ) <==> !(config.zoom_start >= ZOOM_ONE && config.zoom_factor >= ZOOM_ONE && view_ok(
            *config,
        ) && zoom_range_ok(*config) && span_ok(*config))),
        config_ok(*config) && zoom_range_ok(*config) ==> (r.is_ok() || r == Result::<
            AnimationResult,
            RenderError,
        >::Err(RenderError::Encode(EncodeError::Stream))),
        r.is_ok() ==> ({
            let res = r.unwrap();
            &&& res.frames_written == config.frames
            &&& res.final_zoom == zoom_after(
                config.zoom_start,
                config.zoom_factor,
                (config.frames - 1) as nat,
            )
            &&& res.frames@.len() == config.frames
            &&& forall|i: int|
                0 <= i < config.frames ==> #[trigger] res.frames@[i] == (
                    run_frame_bytes(*config, i as nat),
                    (config.delay_ms / 10) as u16,
                )
        }),
{
    if config.width == 0 || config.height == 0 {
        return Err(RenderError::Config(ConfigError::EmptyImage));
    }
    if config.depth > MAX_DEPTH {
        return Err(RenderError::Config(ConfigError::DepthTooLarge));
    }
    if config.frames < 1 || config.frames > MAX_FRAMES {
        return Err(RenderError::Config(ConfigError::BadFrameCount));
    }
    if config.delay_ms / 10 > 65535 {
        return Err(RenderError::Config(ConfigError::BadDelay));
    }
    match config.kind {
        FractalKind::Cantor => {},
        FractalKind::Escape { palette_size, .. } => {
            if palette_size < 1 || palette_size > 256 {
                return Err(RenderError::Config(ConfigError::BadPaletteSize));
            }
        },
    }
    if config.zoom_start < ZOOM_ONE || config.zoom_factor < ZOOM_ONE {
        proof {
            if config.zoom_start < ZOOM_ONE {
                assert(zoom_after(config.zoom_start, config.zoom_factor, 0)
                    == config.zoom_start);
            }
        }
        return Err(RenderError::Config(ConfigError::BadViewport));
    }
    let view_fine = match config.kind {
        FractalKind::Cantor => check_window(&config.window),
        FractalKind::Escape { center_re, center_im, base_span, .. } => {
            crate::escape::check_escape_window(center_re, center_im, base_span)
        },
    };
    if !view_fine {
        return Err(RenderError::Config(ConfigError::BadViewport));
    }
    if !check_zoom_range(config.zoom_start, config.zoom_factor, config.frames) {
        return Err(RenderError::Config(ConfigError::BadViewport));
    }
    let zoom_last = final_zoom_value(config.zoom_start, config.zoom_factor, config.frames);
    match config.kind {
        FractalKind::Cantor => {},
        FractalKind::Escape { base_span, .. } => {
            proof {
                crate::lemma_u64_mul_fits(base_span, FX_ONE);
            }
            let span_last: u128 = (base_span as u128 * FX_ONE as u128) / (zoom_last as u128);
            if span_last < 1 {
                return Err(RenderError::Config(ConfigError::BadViewport));
            }
        },
    }
    let palette: Palette = match config.kind {
        FractalKind::Cantor => {
            let mut colors: Vec<Rgb> = Vec::new();
            colors.push(config.bg);
            colors.push(config.fill);
            colors.push(config.border);
            match fixed_palette(&colors) {
                Ok(p) => p,
                Err(_) => {
                    proof {
                        assert(false);
                    }
                    return Err(RenderError::Config(ConfigError::BadPaletteSize));
                },
            }
        },
        FractalKind::Escape { palette_size, .. } => {
            match gradient(palette_size as usize) {
                Ok(p) => p,
                Err(_) => {
                    proof {
                        assert(false);
                    }
                    return Err(RenderError::Config(ConfigError::BadPaletteSize));
                },
            }
        },
    };
    let plen = palette.len();
    let mut enc = match AnimationEncoder::open(config.width, config.height, &palette) {
        Ok(e) => e,
        Err(_) => {
            return Err(RenderError::Encode(EncodeError::Stream));
        },
    };
    let squares = match crate::geometry::generate_cantor_squares(config.depth) {
        Ok(s) => s,
        Err(_) => {
            proof {
                assert(false);
            }
            return Err(RenderError::Config(ConfigError::DepthTooLarge));
        },
    };
    let scale = crate::pow3_exec(config.depth);
    proof {
        crate::lemma_pow3_increases(0, config.depth as nat);
        crate::lemma_pow3_increases(config.depth as nat, MAX_DEPTH as nat);
        reveal_with_fuel(crate::pow3, 12);
        assert(crate::pow3(MAX_DEPTH as nat) == 177147);
    }
    let width = config.width as usize;
    let height = config.height as usize;
    let frames = config.frames;
    let mut z = config.zoom_start;
    let mut i: u32 = 0;
    while i < frames
        invariant
            i <= frames,
            1 <= frames <= MAX_FRAMES,
            config.depth <= MAX_DEPTH,
            width == config.width as int,
            height == config.height as int,
            1 <= width <= 65535,
            1 <= height <= 65535,
            config.delay_ms / 10 <= 65535,
            palette_size_ok(*config),
            view_ok(*config),
            span_ok(*config),
            config.zoom_start >= ZOOM_ONE,
            config.zoom_factor >= ZOOM_ONE,
            zoom_range_ok(*config),
            frames == config.frames,
            1 <= scale <= 177147,
            scale == crate::pow3(config.depth as nat),
            squares@ == fractal_set(
                Square { x: 0, y: 0, side: scale },
                config.depth as nat,
            ),
            forall|k: int|
                0 <= k < squares@.len() ==> in_box(
                    #[trigger] squares@[k],
                    Square { x: 0, y: 0, side: scale },
                ),
            enc.wf(),
            enc.is_open(),
            enc.spec_width() == config.width,
            enc.spec_height() == config.height,
            enc.spec_palette_len() == plen,
            1 <= plen <= 256,
            (config.kind matches FractalKind::Cantor) ==> plen == 3,
            (config.kind matches FractalKind::Escape { palette_size, .. } ==> plen
                == palette_size),
            enc.frames().len() == i,
            forall|j: int|
                0 <= j < i ==> #[trigger] enc.frames()[j] == (
                    run_frame_bytes(*config, j as nat),
                    (config.delay_ms / 10) as u16,
                ),
            enc.spec_count() == i,
            i < frames ==> z == zoom_after(config.zoom_start, config.zoom_factor, i as nat),
            i == frames ==> z == zoom_after(
                config.zoom_start,
                config.zoom_factor,
                (frames - 1) as nat,
            ),
        decreases frames - i,
    {
        proof {
            assert(ZOOM_ONE <= zoom_after(config.zoom_start, config.zoom_factor, i as nat)
                <= MAX_ZOOM_NUM);
        }
        let scene: Scene = match config.kind {
            FractalKind::Cantor => {
                let vp = match Viewport::from_window(&config.window, z) {
                    Ok(v) => v,
                    Err(_) => {
                        proof {
                            assert(false);
                        }
                        return Err(RenderError::Config(ConfigError::BadViewport));
                    },
                };
                let rects = project_visible(&squares, scale, &vp, width, height);
                let sc = Scene::Cantor(
                    CantorScene {
                        rects,
                        width,
                        height,
                        bg: 0,
                        fill: 1,
                        border: 2,
                        palette_len: plen,
                    },
                );
                proof {
                    let zn = zoom_after(config.zoom_start, config.zoom_factor, i as nat);
                    assert(vp == viewport_at(config.window, zn));
                    lemma_scene_is_run_frame(*config, i as nat, sc);
                }
                sc
            },
            FractalKind::Escape { center_re, center_im, base_span, max_iter, .. } => {
                proof {
                    // The span only shrinks as the zoom deepens, so it
                    // stays at least one through the whole run.
                    crate::viewport::lemma_zoom_ordered(
                        config.zoom_start,
                        config.zoom_factor,
                        i as nat,
                        (frames - 1) as nat,
                    );
                    vstd::arithmetic::div_mod::lemma_div_is_ordered_by_denominator(
                        base_span * (FX_ONE as int),
                        zoom_after(config.zoom_start, config.zoom_factor, i as nat),
                        zoom_after(
                            config.zoom_start,
                            config.zoom_factor,
                            (frames - 1) as nat,
                        ),
                    );
                    crate::lemma_mul_bounds(
                        base_span as int,
                        FX_ONE as int,
                        u64::MAX as int,
                        u64::MAX as int,
                    );
                }
                let view = match EscapeView::from_zoom(center_re, center_im, base_span, z) {
                    Ok(v) => v,
                    Err(_) => {
                        proof {
                            assert(false);
                        }
                        return Err(RenderError::Config(ConfigError::BadViewport));
                    },
                };
                let sc = Scene::Escape(
                    EscapeScene { view, width, height, max_iter, palette_len: plen },
                );
                proof {
                    let zn = zoom_after(config.zoom_start, config.zoom_factor, i as nat);
                    assert(view == escape_view_at(center_re, center_im, base_span, zn));
                    lemma_scene_is_run_frame(*config, i as nat, sc);
                }
                sc
            },
        };
        let fb = render_frame_buffer(&scene);
        proof {
            lemma_frame_bytes_bounded(scene);
            assert(fb.data@ == run_frame_bytes(*config, i as nat));
        }
        let ghost prev_frames = enc.frames();
        match enc.append_frame(&fb, config.delay_ms) {
            Ok(()) => {
                proof {
                    assert(enc.frames() == prev_frames.push(
                        (fb.data@, (config.delay_ms / 10) as u16),
                    ));
                    assert forall|j: int| 0 <= j < i + 1 implies #[trigger] enc.frames()[j] == (
                        run_frame_bytes(*config, j as nat),
                        (config.delay_ms / 10) as u16,
                    ) by {
                        if j == i {
                            assert(enc.frames()[j] == (fb.data@, (config.delay_ms / 10) as u16));
                        } else {
                            assert(enc.frames()[j] == prev_frames[j]);
                        }
                    }
                }
            },
            Err(_) => {
                return Err(RenderError::Encode(EncodeError::Stream));
            },
        }
        if i + 1 < frames {
            z = match advance_zoom(z, config.zoom_factor) {
                Some(v) => v,
                None => {
                    proof {
                        assert(ZOOM_ONE <= zoom_after(
                            config.zoom_start,
                            config.zoom_factor,
                            (i + 1) as nat,
                        ) <= MAX_ZOOM_NUM);
                        assert(false);
                    }
                    return Err(RenderError::Config(ConfigError::BadViewport));
                },
            };
            proof {
                assert(ZOOM_ONE <= zoom_after(
                    config.zoom_start,
                    config.zoom_factor,
                    (i + 1) as nat,
                ) <= MAX_ZOOM_NUM);
            }
        }
        i = i + 1;
    }
    let count = enc.frame_count();
    let bytes = match enc.finalize() {
        Ok(b) => b,
        Err(_) => {
            return Err(RenderError::Encode(EncodeError::Stream));
        },
    };
    Ok(
        AnimationResult {
            bytes,
            frames_written: count,
            final_zoom: z,
            frames: Ghost(enc.frames()),
        },
    )
}

/// The zoom of the last frame, `zoom_start` advanced `frames - 1` times.
fn final_zoom_value(z0: u64, factor: u64, frames: u32) -> (r: u64)
    requires
        z0 >= ZOOM_ONE,
        factor >= ZOOM_ONE,
        frames >= 1,
        forall|j: nat|
            j < frames ==> ZOOM_ONE <= #[trigger] zoom_after(z0, factor, j) <= MAX_ZOOM_NUM,
    ensures
        r == zoom_after(z0, factor, (frames - 1) as nat),
{
    let mut z = z0;
    let mut i: u32 = 0;
    while i + 1 < frames
        invariant
            i < frames,
            z0 >= ZOOM_ONE,
            factor >= ZOOM_ONE,
            z == zoom_after(z0, factor, i as nat),
            forall|j: nat|
                j < frames ==> ZOOM_ONE <= #[trigger] zoom_after(z0, factor, j) <= MAX_ZOOM_NUM,
        decreases frames - i,
    {
        proof {
            assert(ZOOM_ONE <= zoom_after(z0, factor, (i + 1) as nat) <= MAX_ZOOM_NUM);
        }
        z = match advance_zoom(z, factor) {
            Some(v) => v,
            None => {
                proof {
                    assert(false);
                }
                return z;
            },
        };
        i = i + 1;
    }
    z
}

/// Relies on rand: a `StdRng` seeded from the given value, asked for one
/// draw below `bound`. The caller injects the seed, so a render driven by
/// the draw stays reproducible under test; nothing more is assumed of the
/// value than its range.
#[verifier::external_body]
fn draw_below(seed: u64, bound: u32) -> (r: u32)
    requires
        bound >= 1,
    ensures
        r < bound,
{
    let mut rng = rand::rngs::StdRng::seed_from_u64(seed);
    rng.random_range(0..bound)
}

/// The surprise preset: a subdivision depth drawn from a seeded source,
/// never beyond six, and the zoom reset to one.
pub fn mystery_preset(seed: u64) -> (r: (u32, u64))
    ensures
        r.0 <= 6,
        r.1 == ZOOM_ONE,
{
    let depth = draw_below(seed, 7);
    (depth, ZOOM_ONE)
}

/// The number of squares a depth yields, `4^depth`.
pub fn square_count(depth: u32) -> (r: Result<u64, ConfigError>)
    ensures
        r.is_ok() <==> depth <= MAX_DEPTH,
        r.is_ok() ==> r.unwrap() == crate::pow4(depth as nat),
{
    if depth > MAX_DEPTH {
        return Err(ConfigError::DepthTooLarge);
    }
    proof {
        reveal_with_fuel(crate::pow4, 12);
        assert(crate::pow4(MAX_DEPTH as nat) == 4194304);
    }
    let mut r: u64 = 1;
    let mut i: u32 = 0;
    while i < depth
        invariant
            i <= depth,
            depth <= MAX_DEPTH,
            r == crate::pow4(i as nat),
            crate::pow4(MAX_DEPTH as nat) == 4194304,
        decreases depth - i,
    {
        proof {
            crate::lemma_pow4_increases(i as nat + 1, MAX_DEPTH as nat);
        }
        r = r * 4;
        i = i + 1;
    }
    Ok(r)
}

} // verus!

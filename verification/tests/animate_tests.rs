use fracantor::animate::{
    mystery_preset, run_animation, AnimationConfig, AnimationResult, FractalKind, MAX_FRAMES,
};
use fracantor::encoder::EncodeError;
use fracantor::escape::{fx_from_ratio, FX_ONE};
use fracantor::palette::Rgb;
use fracantor::viewport::{ViewWindow, DEFAULT_ZOOM_FACTOR, ZOOM_ONE};
use fracantor::{ConfigError, RenderError};

fn small_config() -> AnimationConfig {
    AnimationConfig {
        kind: FractalKind::Cantor,
        width: 9,
        height: 9,
        depth: 1,
        frames: 3,
        delay_ms: 20,
        zoom_start: ZOOM_ONE,
        zoom_factor: DEFAULT_ZOOM_FACTOR,
        window: ViewWindow { cx_num: 1, cy_num: 1, base_num: 1, den: 3 },
        bg: Rgb { r: 0, g: 0, b: 0 },
        fill: Rgb { r: 50, g: 150, b: 255 },
        border: Rgb { r: 255, g: 255, b: 255 },
    }
}

fn expect_err(r: Result<AnimationResult, RenderError>) -> RenderError {
    match r {
        Err(e) => e,
        Ok(_) => panic!("expected the run to be rejected"),
    }
}

fn count_frames(bytes: &[u8]) -> usize {
    let mut n = 0;
    let mut i = 0;
    while i + 2 < bytes.len() {
        if bytes[i] == 0x21 && bytes[i + 1] == 0xF9 && bytes[i + 2] == 0x04 {
            n += 1;
            i += 3;
        } else {
            i += 1;
        }
    }
    n
}

#[test]
fn cantor_run_writes_every_configured_frame() {
    let res = run_animation(&small_config()).unwrap();
    assert_eq!(res.frames_written, 3);
    assert_eq!(&res.bytes[0..6], b"GIF89a");
    assert_eq!(count_frames(&res.bytes), 3);
    // Two zoom steps from one.
    let z1 = DEFAULT_ZOOM_FACTOR as u128;
    let z2 = (z1 * z1 / ZOOM_ONE as u128) as u64;
    assert_eq!(res.final_zoom, z2);
}

#[test]
fn escape_run_writes_every_configured_frame() {
    let mut config = small_config();
    config.kind = FractalKind::Escape {
        center_re: fx_from_ratio(true, 1, 2),
        center_im: 0,
        base_span: 3 * FX_ONE,
        max_iter: 30,
        palette_size: 16,
    };
    config.width = 8;
    config.height = 8;
    config.frames = 2;
    let res = run_animation(&config).unwrap();
    assert_eq!(res.frames_written, 2);
    assert_eq!(count_frames(&res.bytes), 2);
}

#[test]
fn ninety_frame_run_completes() {
    let mut config = small_config();
    config.width = 16;
    config.height = 16;
    config.depth = 2;
    config.frames = 90;
    let res = run_animation(&config).unwrap();
    assert_eq!(res.frames_written, 90);
    assert_eq!(count_frames(&res.bytes), 90);
    let zoom = res.final_zoom as f64 / ZOOM_ONE as f64;
    let expected = 1.05f64.powi(89);
    assert!((zoom - expected).abs() / expected < 1e-6);
}

#[test]
fn each_configuration_fault_has_its_own_error() {
    let mut c = small_config();
    c.width = 0;
    assert_eq!(
        expect_err(run_animation(&c)),
        RenderError::Config(ConfigError::EmptyImage)
    );

    let mut c = small_config();
    c.depth = 12;
    assert_eq!(
        expect_err(run_animation(&c)),
        RenderError::Config(ConfigError::DepthTooLarge)
    );

    let mut c = small_config();
    c.frames = 0;
    assert_eq!(
        expect_err(run_animation(&c)),
        RenderError::Config(ConfigError::BadFrameCount)
    );
    c.frames = MAX_FRAMES + 1;
    assert_eq!(
        expect_err(run_animation(&c)),
        RenderError::Config(ConfigError::BadFrameCount)
    );

    let mut c = small_config();
    c.delay_ms = 1000000000;
    assert_eq!(
        expect_err(run_animation(&c)),
        RenderError::Config(ConfigError::BadDelay)
    );

    let mut c = small_config();
    c.window = ViewWindow { cx_num: 0, cy_num: 0, base_num: 1, den: 3 };
    assert_eq!(
        expect_err(run_animation(&c)),
        RenderError::Config(ConfigError::BadViewport)
    );

    let mut c = small_config();
    c.zoom_start = ZOOM_ONE - 1;
    assert_eq!(
        expect_err(run_animation(&c)),
        RenderError::Config(ConfigError::BadViewport)
    );

    // A factor of two for a hundred frames leaves the accepted zoom range.
    let mut c = small_config();
    c.zoom_factor = 2 * ZOOM_ONE;
    c.frames = 100;
    assert_eq!(
        expect_err(run_animation(&c)),
        RenderError::Config(ConfigError::BadViewport)
    );

    let mut c = small_config();
    c.kind = FractalKind::Escape {
        center_re: 0,
        center_im: 0,
        base_span: 4 * FX_ONE,
        max_iter: 10,
        palette_size: 0,
    };
    assert_eq!(
        expect_err(run_animation(&c)),
        RenderError::Config(ConfigError::BadPaletteSize)
    );

    // An escape view poking out of the two-disc.
    let mut c = small_config();
    c.kind = FractalKind::Escape {
        center_re: FX_ONE as i64,
        center_im: 0,
        base_span: 4 * FX_ONE,
        max_iter: 10,
        palette_size: 8,
    };
    assert_eq!(
        expect_err(run_animation(&c)),
        RenderError::Config(ConfigError::BadViewport)
    );
}

#[test]
fn default_configuration_matches_the_batch_renderer() {
    let c = AnimationConfig::default();
    assert_eq!(c.width, 1600);
    assert_eq!(c.height, 1600);
    assert_eq!(c.frames, 90);
    assert_eq!(c.depth, 11);
    assert_eq!(c.zoom_factor, DEFAULT_ZOOM_FACTOR);
    assert_eq!(c.window, ViewWindow { cx_num: 1, cy_num: 1, base_num: 1, den: 3 });
    assert_eq!(c.fill, Rgb { r: 50, g: 150, b: 255 });
    assert!(matches!(c.kind, FractalKind::Cantor));
}

#[test]
fn mystery_preset_is_bounded_and_reproducible() {
    for seed in 0..20u64 {
        let (depth, zoom) = mystery_preset(seed);
        assert!(depth <= 6);
        assert_eq!(zoom, ZOOM_ONE);
        assert_eq!(mystery_preset(seed), (depth, zoom));
    }
    // Different seeds reach different depths.
    let mut seen = [false; 7];
    for seed in 0..64u64 {
        seen[mystery_preset(seed).0 as usize] = true;
    }
    assert!(seen.iter().filter(|&&s| s).count() > 1);
}

#[test]
fn stream_errors_only_come_from_the_encoder() {
    // A sanity check that a well-formed run never reports Finalized or a
    // validation error wrapped as an encoding fault.
    match run_animation(&small_config()) {
        Ok(_) => {}
        Err(RenderError::Encode(e)) => assert_eq!(e, EncodeError::Stream),
        Err(RenderError::Config(_)) => panic!("valid configuration rejected"),
    }
}

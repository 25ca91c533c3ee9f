use fracantor::viewport::{
    advance_zoom, check_window, ViewWindow, Viewport, DEFAULT_ZOOM_FACTOR, MAX_ZOOM_NUM,
    ZOOM_ONE,
};
use fracantor::ConfigError;

fn third_window() -> ViewWindow {
    ViewWindow { cx_num: 1, cy_num: 1, base_num: 1, den: 3 }
}

fn full_window() -> ViewWindow {
    ViewWindow { cx_num: 1, cy_num: 1, base_num: 2, den: 2 }
}

#[test]
fn window_check_accepts_and_rejects() {
    assert!(check_window(&third_window()));
    assert!(check_window(&full_window()));
    // Center too close to the edge for the base size.
    assert!(!check_window(&ViewWindow { cx_num: 0, cy_num: 1, base_num: 1, den: 3 }));
    assert!(!check_window(&ViewWindow { cx_num: 1, cy_num: 1, base_num: 0, den: 3 }));
    assert!(!check_window(&ViewWindow { cx_num: 1, cy_num: 1, base_num: 1, den: 0 }));
}

#[test]
fn viewport_of_the_full_window_is_the_world_square() {
    let vp = Viewport::from_window(&full_window(), ZOOM_ONE).unwrap();
    assert_eq!(vp.x_num, 0);
    assert_eq!(vp.y_num, 0);
    assert_eq!(vp.size_num, vp.den);
}

#[test]
fn viewport_center_third_at_zoom_one() {
    let vp = Viewport::from_window(&third_window(), ZOOM_ONE).unwrap();
    // x_min = 1/3 - 1/6 = 1/6; size = 1/3.
    assert_eq!(vp.den, 6 * ZOOM_ONE);
    assert_eq!(vp.x_num, ZOOM_ONE);
    assert_eq!(vp.size_num, 2 * ZOOM_ONE);
    let (x0, y0, x1, y1, den) = vp.world_rect();
    assert_eq!(x0, ZOOM_ONE);
    assert_eq!(y0, ZOOM_ONE);
    assert_eq!(x1, 3 * ZOOM_ONE);
    assert_eq!(y1, 3 * ZOOM_ONE);
    assert_eq!(den, 6 * ZOOM_ONE);
}

#[test]
fn viewport_rejects_bad_zoom() {
    assert_eq!(
        Viewport::from_window(&third_window(), ZOOM_ONE - 1).unwrap_err(),
        ConfigError::BadViewport
    );
    assert_eq!(
        Viewport::from_window(&third_window(), MAX_ZOOM_NUM + 1).unwrap_err(),
        ConfigError::BadViewport
    );
}

#[test]
fn pixel_world_round_trip_recovers_every_pixel() {
    let vp = Viewport::from_window(&third_window(), 3 * ZOOM_ONE).unwrap();
    for px in 0..9u64 {
        let wx = vp.pixel_to_world_x(px, 9);
        assert_eq!(vp.world_to_pixel_x(wx, 9), px as u128);
        let wy = vp.pixel_to_world_y(px, 9);
        assert_eq!(vp.world_to_pixel_y(wy, 9), px as u128);
    }
    let vp2 = Viewport::from_window(&full_window(), ZOOM_ONE).unwrap();
    for px in 0..640u64 {
        let wx = vp2.pixel_to_world_x(px, 640);
        assert_eq!(vp2.world_to_pixel_x(wx, 640), px as u128);
    }
}

#[test]
fn one_zoom_step_multiplies_in_fixed_point() {
    let z = advance_zoom(ZOOM_ONE, DEFAULT_ZOOM_FACTOR).unwrap();
    assert_eq!(z, DEFAULT_ZOOM_FACTOR);
    let z2 = advance_zoom(z, DEFAULT_ZOOM_FACTOR).unwrap();
    // 1.05^2 = 1.1025, truncated below the 2^-32 unit.
    let expected = (DEFAULT_ZOOM_FACTOR as u128 * DEFAULT_ZOOM_FACTOR as u128
        / ZOOM_ONE as u128) as u64;
    assert_eq!(z2, expected);
}

#[test]
fn zoom_never_decreases_across_the_animation() {
    let mut z = ZOOM_ONE;
    for _ in 0..200 {
        let nz = advance_zoom(z, DEFAULT_ZOOM_FACTOR).unwrap();
        assert!(nz >= z);
        assert!(nz >= ZOOM_ONE);
        z = nz;
    }
}

#[test]
fn ninety_frame_zoom_reaches_the_factor_power() {
    // Frame 89 of a 90-frame run at 1.05x per frame sits at 1.05^89.
    let mut z = ZOOM_ONE;
    for _ in 0..89 {
        z = advance_zoom(z, DEFAULT_ZOOM_FACTOR).unwrap();
    }
    let actual = z as f64 / ZOOM_ONE as f64;
    let expected = 1.05f64.powi(89);
    assert!((actual - expected).abs() / expected < 1e-6);
    assert!(actual > 70.0 && actual < 80.0);
}

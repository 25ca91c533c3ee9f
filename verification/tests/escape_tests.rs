use fracantor::escape::{
    check_escape_window, escape_time, fx_from_ratio, map_axis, EscapeView, FX_ONE,
};
use fracantor::viewport::ZOOM_ONE;
use fracantor::ConfigError;

#[test]
fn fixed_point_from_ratio() {
    assert_eq!(fx_from_ratio(false, 1, 2), (FX_ONE / 2) as i64);
    assert_eq!(fx_from_ratio(true, 1, 4), -((FX_ONE / 4) as i64));
    assert_eq!(fx_from_ratio(false, 0, 1), 0);
    assert_eq!(fx_from_ratio(false, 4, 1), 4 * FX_ONE as i64);
}

#[test]
fn origin_never_escapes() {
    assert_eq!(escape_time(0, 0, 100), 100);
    assert_eq!(escape_time(0, 0, 0), 0);
}

#[test]
fn far_point_escapes_after_one_step() {
    let two = 2 * FX_ONE as i64;
    assert_eq!(escape_time(two, two, 50), 1);
}

#[test]
fn interior_point_never_escapes() {
    // c = -1 cycles between 0 and -1.
    let minus_one = -(FX_ONE as i64);
    assert_eq!(escape_time(minus_one, 0, 300), 300);
}

#[test]
fn seahorse_valley_iteration_anchor() {
    // Escape-time regression anchor: center (-0.7469, 0.1102) at zoom one
    // with a budget of 256 iterations.
    let cr = fx_from_ratio(true, 7469, 10000);
    let ci = fx_from_ratio(false, 1102, 10000);
    assert_eq!(escape_time(cr, ci, 256), 154);
}

#[test]
fn map_axis_spans_the_view() {
    // A view of side 4 centered at 0 over 4 pixels.
    let span = 4 * FX_ONE;
    assert_eq!(map_axis(0, span, 0, 4), -(2 * FX_ONE as i64));
    assert_eq!(map_axis(0, span, 2, 4), 0);
    assert_eq!(map_axis(0, span, 3, 4), FX_ONE as i64);
}

#[test]
fn escape_view_validation() {
    assert!(check_escape_window(0, 0, 4 * FX_ONE));
    // A window poking out of the two-disc is refused.
    assert!(!check_escape_window(FX_ONE as i64, 0, 4 * FX_ONE));
    assert!(!check_escape_window(0, 0, 0));
    let v = EscapeView::from_zoom(0, 0, 4 * FX_ONE, 2 * ZOOM_ONE).unwrap();
    assert_eq!(v.span, 2 * FX_ONE);
    assert_eq!(
        EscapeView::from_zoom(0, 0, 4 * FX_ONE, ZOOM_ONE / 2).unwrap_err(),
        ConfigError::BadViewport
    );
}

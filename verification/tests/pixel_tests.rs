use fracantor::palette::Rgb;
use fracantor::pixel::{
    draw_cantor_square, draw_filled_rectangle, generate_cantor_image, render_still,
};
use fracantor::raster::FrameBuffer;
use fracantor::vector::{generate_svg_rectangles, vector_export, RectSpec};
use fracantor::viewport::ZOOM_ONE;
use fracantor::ConfigError;

const RED: Rgb = Rgb { r: 200, g: 10, b: 10 };
const WHITE: Rgb = Rgb { r: 255, g: 255, b: 255 };

fn pixel(fb: &FrameBuffer, x: usize, y: usize) -> Rgb {
    let pos = (y * fb.width + x) * 3;
    Rgb { r: fb.data[pos], g: fb.data[pos + 1], b: fb.data[pos + 2] }
}

#[test]
fn still_render_paints_corners_over_white() {
    let fb = render_still(9, 1, RED).unwrap();
    assert_eq!(fb.width, 9);
    assert_eq!(fb.channels, 3);
    // Depth one on a 9-pixel canvas: 3x3 blocks in the four corners.
    assert_eq!(pixel(&fb, 1, 1), RED);
    assert_eq!(pixel(&fb, 7, 1), RED);
    assert_eq!(pixel(&fb, 1, 7), RED);
    assert_eq!(pixel(&fb, 7, 7), RED);
    // The middle cross stays white.
    assert_eq!(pixel(&fb, 4, 4), WHITE);
    assert_eq!(pixel(&fb, 4, 0), WHITE);
    assert_eq!(pixel(&fb, 0, 4), WHITE);
}

#[test]
fn still_render_depth_zero_is_fully_painted() {
    let fb = render_still(5, 0, RED).unwrap();
    for y in 0..5 {
        for x in 0..5 {
            assert_eq!(pixel(&fb, x, y), RED);
        }
    }
}

#[test]
fn still_render_validates_its_inputs() {
    assert_eq!(render_still(0, 1, RED).unwrap_err(), ConfigError::EmptyImage);
    assert_eq!(render_still(40000, 1, RED).unwrap_err(), ConfigError::ImageTooLarge);
    assert_eq!(render_still(9, 12, RED).unwrap_err(), ConfigError::DepthTooLarge);
}

#[test]
fn zoomed_image_resamples_from_the_origin() {
    let full = render_still(8, 1, RED).unwrap();
    let zoomed = generate_cantor_image(8, 1, 2 * ZOOM_ONE, RED).unwrap();
    for y in 0..8 {
        for x in 0..8 {
            assert_eq!(pixel(&zoomed, x, y), pixel(&full, x / 2, y / 2));
        }
    }
    assert_eq!(
        generate_cantor_image(8, 1, ZOOM_ONE / 2, RED).unwrap_err(),
        ConfigError::BadViewport
    );
}

#[test]
fn filled_rectangle_clips_to_the_buffer() {
    let mut fb = FrameBuffer::new(4, 4, 3);
    draw_filled_rectangle(&mut fb, 2, 2, 5, RED);
    for y in 0..4 {
        for x in 0..4 {
            let expected = if x >= 2 && y >= 2 { RED } else { Rgb { r: 0, g: 0, b: 0 } };
            assert_eq!(pixel(&fb, x, y), expected);
        }
    }
}

#[test]
fn cantor_drawing_leaves_the_cross_untouched() {
    let mut fb = FrameBuffer::new(9, 9, 3);
    draw_cantor_square(&mut fb, 0, 0, 9, 1, RED);
    assert_eq!(pixel(&fb, 0, 0), RED);
    assert_eq!(pixel(&fb, 8, 8), RED);
    assert_eq!(pixel(&fb, 4, 4), Rgb { r: 0, g: 0, b: 0 });
}

#[test]
fn vector_rectangles_match_the_square_set() {
    let rects = generate_svg_rectangles(0, 0, 9, 1, RED).unwrap();
    assert_eq!(rects.len(), 4);
    assert_eq!(
        rects[0],
        RectSpec { x: 0, y: 0, width: 3, height: 3, fill: RED }
    );
    assert_eq!(
        rects[1],
        RectSpec { x: 6, y: 0, width: 3, height: 3, fill: RED }
    );
    assert_eq!(
        rects[3],
        RectSpec { x: 6, y: 6, width: 3, height: 3, fill: RED }
    );
    assert_eq!(
        generate_svg_rectangles(0, 0, 9, 12, RED).unwrap_err(),
        ConfigError::DepthTooLarge
    );
}

#[test]
fn vector_rectangles_skip_degenerate_leaves() {
    // A zero canvas yields nothing.
    assert_eq!(generate_svg_rectangles(0, 0, 0, 1, RED).unwrap(), Vec::new());
    // A 2-pixel canvas at depth one truncates every child to side zero.
    assert_eq!(generate_svg_rectangles(0, 0, 2, 1, RED).unwrap(), Vec::new());
    // The same canvas at depth zero keeps its single square.
    assert_eq!(
        generate_svg_rectangles(0, 0, 2, 0, RED).unwrap(),
        vec![RectSpec { x: 0, y: 0, width: 2, height: 2, fill: RED }]
    );
    // A 4-pixel canvas survives one round (side 1) but not two.
    let one_round = generate_svg_rectangles(0, 0, 4, 1, RED).unwrap();
    assert_eq!(one_round.len(), 4);
    assert_eq!(
        one_round[3],
        RectSpec { x: 2, y: 2, width: 1, height: 1, fill: RED }
    );
    assert_eq!(generate_svg_rectangles(0, 0, 4, 2, RED).unwrap(), Vec::new());
    // The export still carries its background rectangle alone.
    let bg = Rgb { r: 255, g: 255, b: 255 };
    let exported = vector_export(0, 1, RED, bg).unwrap();
    assert_eq!(
        exported,
        vec![RectSpec { x: 0, y: 0, width: 0, height: 0, fill: bg }]
    );
}

#[test]
fn vector_export_puts_the_background_first() {
    let bg = Rgb { r: 255, g: 255, b: 255 };
    let rects = vector_export(2187, 2, RED, bg).unwrap();
    assert_eq!(rects.len(), 17);
    assert_eq!(
        rects[0],
        RectSpec { x: 0, y: 0, width: 2187, height: 2187, fill: bg }
    );
    assert_eq!(rects[1].width, 243);
    assert_eq!(
        rects[16],
        RectSpec { x: 1944, y: 1944, width: 243, height: 243, fill: RED }
    );
}

use fracantor::escape::{EscapeView, FX_ONE};
use fracantor::geometry::generate_cantor_squares;
use fracantor::raster::{
    project_square, render_frame, render_frame_buffer, render_frame_parallel, CantorScene,
    EscapeScene, FrameBuffer, Scene,
};
use fracantor::viewport::{ViewWindow, Viewport, ZOOM_ONE};

/// The whole world square mapped onto a `size x size` image at the given
/// zoom, drawn with background 0, fill 1, border 2.
fn cantor_scene(depth: u32, size: usize, zoom: u64) -> Scene {
    let window = ViewWindow { cx_num: 1, cy_num: 1, base_num: 2, den: 2 };
    let vp = Viewport::from_window(&window, zoom).unwrap();
    let squares = generate_cantor_squares(depth).unwrap();
    let scale = 3u64.pow(depth);
    let mut rects = Vec::new();
    for sq in &squares {
        if let Some(rc) = project_square(sq, scale, &vp, size, size) {
            rects.push(rc);
        }
    }
    Scene::Cantor(CantorScene {
        rects,
        width: size,
        height: size,
        bg: 0,
        fill: 1,
        border: 2,
        palette_len: 3,
    })
}

#[test]
fn depth_zero_fills_the_whole_image() {
    let frame = render_frame(&cantor_scene(0, 9, ZOOM_ONE));
    assert_eq!(frame.len(), 81);
    for &b in &frame {
        assert!(b != 0);
    }
    // The border ring wins over the fill.
    assert_eq!(frame[0], 2);
    assert_eq!(frame[4 * 9 + 4], 1);
}

#[test]
fn depth_one_fills_four_corner_blocks() {
    let frame = render_frame(&cantor_scene(1, 9, ZOOM_ONE));
    assert_eq!(frame.len(), 81);
    let origins = [(0usize, 0usize), (6, 0), (0, 6), (6, 6)];
    for y in 0..9usize {
        for x in 0..9usize {
            let inside = origins
                .iter()
                .any(|&(ox, oy)| x >= ox && x < ox + 3 && y >= oy && y < oy + 3);
            let b = frame[y * 9 + x];
            if inside {
                assert!(b != 0);
            } else {
                assert_eq!(b, 0);
            }
        }
    }
    // A block center is fill, its ring is border.
    assert_eq!(frame[1 * 9 + 1], 1);
    assert_eq!(frame[0 * 9 + 6], 2);
}

#[test]
fn depth_two_fills_sixteen_single_pixels() {
    let frame = render_frame(&cantor_scene(2, 9, ZOOM_ONE));
    let coords = [0usize, 2, 6, 8];
    let mut filled = 0;
    for y in 0..9usize {
        for x in 0..9usize {
            let inside = coords.contains(&x) && coords.contains(&y);
            let b = frame[y * 9 + x];
            if inside {
                // A one-pixel square is all border ring.
                assert_eq!(b, 2);
                filled += 1;
            } else {
                assert_eq!(b, 0);
            }
        }
    }
    assert_eq!(filled, 16);
}

fn escape_scene(size: usize, palette_len: usize) -> Scene {
    let view = EscapeView::from_zoom(-(FX_ONE as i64) / 2, 0, 3 * FX_ONE, ZOOM_ONE).unwrap();
    Scene::Escape(EscapeScene {
        view,
        width: size,
        height: size,
        max_iter: 40,
        palette_len,
    })
}

#[test]
fn parallel_and_sequential_frames_are_byte_identical() {
    let scene = cantor_scene(3, 32, 3 * ZOOM_ONE);
    assert_eq!(render_frame(&scene), render_frame_parallel(&scene));
    let scene2 = escape_scene(24, 7);
    assert_eq!(render_frame(&scene2), render_frame_parallel(&scene2));
}

#[test]
fn every_indexed_byte_falls_within_the_palette() {
    let frame = render_frame(&escape_scene(16, 7));
    assert_eq!(frame.len(), 256);
    for &b in &frame {
        assert!((b as usize) < 7);
    }
    let frame2 = render_frame(&cantor_scene(2, 16, ZOOM_ONE));
    for &b in &frame2 {
        assert!((b as usize) < 3);
    }
}

#[test]
fn escape_frame_is_not_constant() {
    // An escape view across the set boundary shows different counts.
    let frame = render_frame(&escape_scene(16, 7));
    let first = frame[0];
    assert!(frame.iter().any(|&b| b != first));
}

#[test]
fn square_outside_the_viewport_projects_to_nothing() {
    // Zoom into the center third: the world's top-left unit square at
    // depth 1 still intersects, but a square right of the view does not.
    let window = ViewWindow { cx_num: 1, cy_num: 1, base_num: 1, den: 3 };
    let vp = Viewport::from_window(&window, ZOOM_ONE).unwrap();
    // The viewport is [1/6, 1/2]^2; a square at [2/3, 1] misses it.
    let far = fracantor::geometry::Square { x: 2, y: 2, side: 1 };
    assert!(project_square(&far, 3, &vp, 9, 9).is_none());
    let near = fracantor::geometry::Square { x: 0, y: 0, side: 1 };
    assert!(project_square(&near, 3, &vp, 9, 9).is_some());
}

#[test]
fn frame_buffer_draws_and_clears() {
    let mut fb = FrameBuffer::new(4, 3, 3);
    assert_eq!(fb.data.len(), 36);
    fb.draw_at(1, 2, (9, 8, 7));
    let pos = (2 * 4 + 1) * 3;
    assert_eq!(&fb.data[pos..pos + 3], &[9, 8, 7]);
    // Out-of-bounds writes change nothing.
    fb.draw_at(4, 0, (1, 1, 1));
    fb.draw_at(0, 3, (1, 1, 1));
    assert_eq!(fb.data.iter().map(|&b| b as u32).sum::<u32>(), 9 + 8 + 7);
    fb.clear();
    assert!(fb.data.iter().all(|&b| b == 0));
}

#[test]
fn frame_buffer_render_keeps_dimensions() {
    let scene = cantor_scene(1, 9, ZOOM_ONE);
    let fb = render_frame_buffer(&scene);
    assert_eq!(fb.width, 9);
    assert_eq!(fb.height, 9);
    assert_eq!(fb.channels, 1);
    assert_eq!(fb.data, render_frame(&scene));
}
